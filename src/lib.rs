//! Server-side core of a turn-synchronous multiplayer snake arena: the grid
//! simulation, the per-player snake entity, the message payloads exchanged with
//! clients, and the coordinator decisions (lobby admission, turn barrier,
//! removal of disconnected players).

pub mod connection;
pub mod coordinator;
pub mod game;
pub mod session;
pub mod snake;
