use vstd::prelude::*;

use crate::game::{rows, Game, GameEvent, GameState, Point};
use crate::snake::Direction;

verus! {

/// Port the server listens on.
pub const SERVER_PORT: usize = 8080;

/// A direction sent by a client once per turn.
pub struct DirectionMessage {
    pub direction: Direction,
}

/// A client's request, in the lobby, to start the match now.
pub struct ForceStartMessage {
    pub force_start: bool,
}

/// The outcome of a turn: every body and the food.
#[derive(Clone)]
pub struct TurnData {
    pub snakes: Vec<Vec<Point>>,
    pub food: Point,
}

/// The state of every player at the end of a turn.
#[derive(Clone)]
pub struct StateData {
    pub states: Vec<GameState>,
}

/// An event announced to a client.
pub struct EventMessage {
    pub event: GameEvent,
}

/// The state of the player the message is sent to.
pub struct StateMessage {
    pub state: GameState,
}

/// The configuration of the match, as told to player `id`.
pub struct GameConfigMessage {
    pub id: usize,
    pub width: usize,
    pub height: usize,
    pub snakes: Vec<Vec<Point>>,
    pub food: Point,
}

/// The outcome of a turn, as told to player `id`.
pub struct TurnMessage {
    pub id: usize,
    pub snakes: Vec<Vec<Point>>,
    pub food: Point,
}

impl TurnData {
    /// The bodies and food of `game` as they stand.
    pub fn new(game: &Game) -> (r: TurnData)
        ensures
            rows(r.snakes@) == game.bodies(),
            r.food == game.food,
    {
        TurnData { snakes: game.snakes_to_vec(), food: game.food }
    }
}

impl StateData {
    /// The states of the players of `game`.
    pub fn new(game: &Game) -> (r: StateData)
        ensures
            r.states@ == game.states@,
    {
        let mut states: Vec<GameState> = Vec::new();
        let mut i: usize = 0;
        while i < game.states.len()
            invariant
                i <= game.states@.len(),
                states@ == game.states@.subrange(0, i as int),
            decreases game.states@.len() - i,
        {
            states.push(game.states[i]);
            i += 1;
            assert(states@ =~= game.states@.subrange(0, i as int));
        }
        assert(states@ =~= game.states@);
        StateData { states }
    }
}

} // verus!
