use vstd::prelude::*;

use crate::connection::{EventMessage, GameConfigMessage, StateData, StateMessage, TurnData, TurnMessage};
use crate::coordinator::GameConfig;
use crate::game::GameEvent;
use crate::snake::Direction;

verus! {

/// What the coordinator tells a session worker.
#[derive(Clone)]
pub enum ClientEvent {
    ExitLobby,
    SendConfig(GameConfig),
    SendNewTurn,
    WaitDirection,
    SendTurnResult(TurnData),
    SendClientGameState(StateData),
}

/// An event for the worker of player `id`.
pub struct ClientEventMessage {
    pub id: usize,
    pub event: ClientEvent,
}

/// What a session worker tells the coordinator.
#[derive(Clone, Copy, Debug, PartialEq, Eq, Structural)]
pub enum ClientMessage {
    Direction(Direction),
    StartGame,
}

/// Where a session worker stands: in the lobby, waiting for the match
/// configuration, or in the match.
#[derive(Clone, Copy, Debug, PartialEq, Eq, Structural)]
pub enum SessionPhase {
    Lobby,
    AwaitConfig,
    Match,
}

/// A message for the client.
pub enum ServerMessage {
    Event(EventMessage),
    Config(GameConfigMessage),
    Turn(TurnMessage),
    State(StateMessage),
}

/// What a session worker does next.
pub enum SessionAction {
    /// Send this message to the client.
    Send(ServerMessage),
    /// Read one direction from the client and forward it to the coordinator.
    ReadDirection,
    /// The coordinator broke the protocol: the worker stops.
    Violation,
}

/// The step of a session worker in `phase` on `event`: what the worker got
/// from the coordinator, `None` when the lobby poll found nothing.
///
/// In the lobby, nothing yet means the client is told to wait, and
/// `ExitLobby` that the match starts. Then only the configuration is taken,
/// and it is passed on with the player's id. In the match, a new turn is
/// announced, a direction is asked for, and the turn's outcome and the
/// player's own state are passed on. Anything else breaks the protocol.
pub fn session_step(phase: SessionPhase, event: Option<ClientEventMessage>) -> (r: (
    SessionPhase,
    SessionAction,
))
    ensures
        match (phase, event) {
            (SessionPhase::Lobby, None) => r.0 == SessionPhase::Lobby && (r.1 matches SessionAction::Send(
                ServerMessage::Event(m),
            ) && m.event == GameEvent::WaitInLobby),
            (SessionPhase::Lobby, Some(ev)) => match ev.event {
                ClientEvent::ExitLobby => r.0 == SessionPhase::AwaitConfig && (r.1 matches SessionAction::Send(
                    ServerMessage::Event(m),
                ) && m.event == GameEvent::Start),
                _ => r.0 == phase && r.1 is Violation,
            },
            (SessionPhase::AwaitConfig, Some(ev)) => match ev.event {
                ClientEvent::SendConfig(c) => r.0 == SessionPhase::Match && (r.1 matches SessionAction::Send(
                    ServerMessage::Config(m),
                ) && m.id == ev.id && m.width == c.width && m.height == c.height && m.snakes == c.snakes
                    && m.food == c.food),
                _ => r.0 == phase && r.1 is Violation,
            },
            (SessionPhase::Match, Some(ev)) => match ev.event {
                ClientEvent::SendNewTurn => r.0 == phase && (r.1 matches SessionAction::Send(
                    ServerMessage::Event(m),
                ) && m.event == GameEvent::NewTurn),
                ClientEvent::WaitDirection => r.0 == phase && r.1 is ReadDirection,
                ClientEvent::SendTurnResult(t) => r.0 == phase && (r.1 matches SessionAction::Send(
                    ServerMessage::Turn(m),
                ) && m.id == ev.id && m.snakes == t.snakes && m.food == t.food),
                ClientEvent::SendClientGameState(d) => r.0 == phase && if ev.id < d.states@.len() {
                    r.1 matches SessionAction::Send(ServerMessage::State(m)) && m.state == d.states@[ev.id as int]
                } else {
                    r.1 is Violation
                },
                _ => r.0 == phase && r.1 is Violation,
            },
            (_, None) => r.0 == phase && r.1 is Violation,
        },
{
    match phase {
        SessionPhase::Lobby => match event {
            None => (SessionPhase::Lobby, SessionAction::Send(ServerMessage::Event(EventMessage { event: GameEvent::WaitInLobby }))),
            Some(ev) => match ev.event {
                ClientEvent::ExitLobby => (
                    SessionPhase::AwaitConfig,
                    SessionAction::Send(ServerMessage::Event(EventMessage { event: GameEvent::Start })),
                ),
                _ => (phase, SessionAction::Violation),
            },
        },
        SessionPhase::AwaitConfig => match event {
            Some(ev) => match ev.event {
                ClientEvent::SendConfig(config) => (
                    SessionPhase::Match,
                    SessionAction::Send(
                        ServerMessage::Config(
                            GameConfigMessage {
                                id: ev.id,
                                width: config.width,
                                height: config.height,
                                snakes: config.snakes,
                                food: config.food,
                            },
                        ),
                    ),
                ),
                _ => (phase, SessionAction::Violation),
            },
            None => (phase, SessionAction::Violation),
        },
        SessionPhase::Match => match event {
            Some(ev) => match ev.event {
                ClientEvent::SendNewTurn => (
                    phase,
                    SessionAction::Send(ServerMessage::Event(EventMessage { event: GameEvent::NewTurn })),
                ),
                ClientEvent::WaitDirection => (phase, SessionAction::ReadDirection),
                ClientEvent::SendTurnResult(turn_data) => (
                    phase,
                    SessionAction::Send(
                        ServerMessage::Turn(
                            TurnMessage { id: ev.id, snakes: turn_data.snakes, food: turn_data.food },
                        ),
                    ),
                ),
                ClientEvent::SendClientGameState(state_data) => {
                    if ev.id < state_data.states.len() {
                        (
                            phase,
                            SessionAction::Send(
                                ServerMessage::State(StateMessage { state: state_data.states[ev.id] }),
                            ),
                        )
                    } else {
                        (phase, SessionAction::Violation)
                    }
                },
                _ => (phase, SessionAction::Violation),
            },
            None => (phase, SessionAction::Violation),
        },
    }
}

} // verus!
