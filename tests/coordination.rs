use snake_server::connection::{StateData, TurnData};
use snake_server::coordinator::{
    lobby_closes, lobby_has_room, lobby_poll, next_phase, phase_event, receive_all, remove_players,
    send_all, Channels, CoordinatorPhase, GameConfig, LobbyPoll, MAX_CLIENTS,
};
use snake_server::game::{Game, GameEvent, GameState, Point};
use snake_server::session::{
    session_step, ClientEvent, ClientEventMessage, ClientMessage, ServerMessage, SessionAction,
    SessionPhase,
};
use snake_server::snake::Direction;

fn match_of(n: usize) -> (Channels<u32, u64>, Game) {
    let mut channels: Channels<u32, u64> = Channels::new();
    for i in 0..n {
        channels.add_session(i as u32, 100 + i as u64);
    }
    let mut game = Game::new(n);
    game.set_states(GameState::Playing);
    (channels, game)
}

fn heads(game: &Game) -> Vec<Point> {
    game.snakes.iter().map(|s| s.body[2]).collect()
}

#[test]
fn removing_several_players_at_once_keeps_order() {
    let (mut channels, mut game) = match_of(4);
    let before = heads(&game);
    remove_players(vec![2, 0], &mut channels, &mut game);
    assert_eq!(channels.size, 2);
    assert_eq!(channels.senders, vec![1, 3]);
    assert_eq!(channels.receivers, vec![101, 103]);
    assert_eq!(heads(&game), vec![before[1], before[3]]);
    assert_eq!(game.states.len(), 2);
}

#[test]
fn removing_nobody_changes_nothing() {
    let (mut channels, mut game) = match_of(3);
    remove_players(vec![], &mut channels, &mut game);
    assert_eq!(channels.senders, vec![0, 1, 2]);
    assert_eq!(game.snakes.len(), 3);
    assert_eq!(game.states.len(), 3);
}

#[test]
fn removing_everyone_empties_the_match() {
    let (mut channels, mut game) = match_of(2);
    remove_players(vec![0, 1], &mut channels, &mut game);
    assert_eq!(channels.size, 0);
    assert!(channels.senders.is_empty() && channels.receivers.is_empty());
    assert!(game.snakes.is_empty() && game.states.is_empty());
}

#[test]
fn failed_sends_remove_their_players() {
    let (mut channels, mut game) = match_of(3);
    send_all(&vec![true, false, true], &mut channels, &mut game);
    assert_eq!(channels.size, 2);
    assert_eq!(channels.senders, vec![0, 2]);
    assert_eq!(channels.receivers, vec![100, 102]);
    assert_eq!(game.snakes.len(), 2);
    assert_eq!(game.states.len(), 2);
}

#[test]
fn gather_failing_for_first_of_two_leaves_one_at_index_zero() {
    let (mut channels, mut game) = match_of(2);
    let second = game.snakes[1].body.clone();
    let directions = receive_all(vec![None, Some(ClientMessage::Direction(Direction::Up))], &mut channels, &mut game);
    assert_eq!(directions, vec![Direction::Up]);
    assert_eq!(channels.size, 1);
    assert_eq!(channels.senders, vec![1]);
    assert_eq!(channels.receivers, vec![101]);
    assert_eq!(game.snakes.len(), 1);
    assert_eq!(game.states.len(), 1);
    assert_eq!(game.snakes[0].body, second);
    game.set_directions(&directions);
    game.play_turn();
    assert_eq!(game.snakes[0].body, vec![p(10, 10), p(11, 10), p(11, 9)]);
    let next = receive_all(vec![Some(ClientMessage::Direction(Direction::Down))], &mut channels, &mut game);
    assert_eq!(next, vec![Direction::Down]);
    assert_eq!(channels.senders, vec![1]);
}

#[test]
fn gather_returns_one_direction_per_live_session() {
    let (mut channels, mut game) = match_of(4);
    let directions = receive_all(
        vec![Some(ClientMessage::Direction(Direction::Left)), None, Some(ClientMessage::Direction(Direction::Down)), None],
        &mut channels,
        &mut game,
    );
    assert_eq!(directions, vec![Direction::Left, Direction::Down]);
    assert_eq!(directions.len(), game.snakes.len());
    assert_eq!(channels.receivers, vec![100, 102]);
}

fn p(x: u16, y: u16) -> Point {
    Point { x, y }
}

#[test]
fn lobby_admits_up_to_capacity() {
    assert_eq!(MAX_CLIENTS, 4);
    assert!(lobby_has_room(0));
    assert!(lobby_has_room(3));
    assert!(!lobby_has_room(4));
    assert!(!lobby_closes(2, false));
    assert!(lobby_closes(2, true));
    assert!(lobby_closes(4, false));
    assert!(lobby_closes(1, true));
}

#[test]
fn lobby_session_waits_then_starts() {
    let (phase, action) = session_step(SessionPhase::Lobby, None);
    assert_eq!(phase, SessionPhase::Lobby);
    assert!(matches!(action, SessionAction::Send(ServerMessage::Event(ref m)) if m.event == GameEvent::WaitInLobby));
    let exit = ClientEventMessage { id: 0, event: ClientEvent::ExitLobby };
    let (phase, action) = session_step(SessionPhase::Lobby, Some(exit));
    assert_eq!(phase, SessionPhase::AwaitConfig);
    assert!(matches!(action, SessionAction::Send(ServerMessage::Event(ref m)) if m.event == GameEvent::Start));
}

#[test]
fn both_players_receive_the_config() {
    let mut channels: Channels<u32, u64> = Channels::new();
    for i in 0..2u32 {
        assert!(lobby_has_room(channels.size));
        channels.add_session(i, i as u64);
        assert!(!lobby_closes(channels.size, false));
    }
    assert!(lobby_closes(channels.size, true));
    let game = Game::new(channels.size);
    assert_eq!(game.snakes[0].body, vec![p(9, 5), p(10, 5), p(11, 5)]);
    assert_eq!(game.snakes[1].body, vec![p(9, 10), p(10, 10), p(11, 10)]);
    for id in 0..2 {
        let ev = ClientEventMessage { id, event: ClientEvent::SendConfig(GameConfig::new(&game)) };
        let (phase, action) = session_step(SessionPhase::AwaitConfig, Some(ev));
        assert_eq!(phase, SessionPhase::Match);
        match action {
            SessionAction::Send(ServerMessage::Config(m)) => {
                assert_eq!(m.id, id);
                assert_eq!((m.width, m.height), (20, 20));
                assert_eq!(m.snakes[id], game.snakes[id].body);
                assert_eq!(m.snakes[id].len(), 3);
                assert_eq!(m.food, game.food);
            },
            _ => panic!("expected the configuration"),
        }
    }
}

#[test]
fn match_events_are_relayed() {
    let (_, mut game) = match_of(2);
    game.states[1] = GameState::Lost;
    let turn = ClientEventMessage { id: 1, event: ClientEvent::SendNewTurn };
    let (_, action) = session_step(SessionPhase::Match, Some(turn));
    assert!(matches!(action, SessionAction::Send(ServerMessage::Event(ref m)) if m.event == GameEvent::NewTurn));
    let wait = ClientEventMessage { id: 1, event: ClientEvent::WaitDirection };
    assert!(matches!(session_step(SessionPhase::Match, Some(wait)).1, SessionAction::ReadDirection));
    let data = TurnData::new(&game);
    assert_eq!(data.snakes, game.snakes_to_vec());
    let result = ClientEventMessage { id: 1, event: ClientEvent::SendTurnResult(data) };
    match session_step(SessionPhase::Match, Some(result)).1 {
        SessionAction::Send(ServerMessage::Turn(m)) => {
            assert_eq!(m.id, 1);
            assert_eq!(m.food, game.food);
            assert_eq!(m.snakes.len(), 2);
        },
        _ => panic!("expected the turn"),
    }
    let states = StateData::new(&game);
    assert_eq!(states.states, vec![GameState::Playing, GameState::Lost]);
    let state = ClientEventMessage { id: 1, event: ClientEvent::SendClientGameState(states) };
    assert!(matches!(session_step(SessionPhase::Match, Some(state)).1,
        SessionAction::Send(ServerMessage::State(ref m)) if m.state == GameState::Lost));
}

#[test]
fn out_of_sequence_events_break_the_protocol() {
    let wait = ClientEventMessage { id: 0, event: ClientEvent::WaitDirection };
    assert!(matches!(session_step(SessionPhase::Lobby, Some(wait)).1, SessionAction::Violation));
    let turn = ClientEventMessage { id: 0, event: ClientEvent::SendNewTurn };
    assert!(matches!(session_step(SessionPhase::AwaitConfig, Some(turn)).1, SessionAction::Violation));
    let exit = ClientEventMessage { id: 0, event: ClientEvent::ExitLobby };
    assert!(matches!(session_step(SessionPhase::Match, Some(exit)).1, SessionAction::Violation));
    assert!(matches!(session_step(SessionPhase::Match, None).1, SessionAction::Violation));
    let bad = ClientEventMessage { id: 5, event: ClientEvent::SendClientGameState(StateData { states: vec![GameState::Playing] }) };
    assert!(matches!(session_step(SessionPhase::Match, Some(bad)).1, SessionAction::Violation));
}

#[test]
fn a_stray_start_request_during_gather_removes_only_that_session() {
    let (mut channels, mut game) = match_of(3);
    let directions = receive_all(
        vec![Some(ClientMessage::Direction(Direction::Left)), Some(ClientMessage::StartGame), None],
        &mut channels,
        &mut game,
    );
    assert_eq!(directions, vec![Direction::Left]);
    assert_eq!(channels.senders, vec![0]);
    assert_eq!(game.snakes.len(), 1);
}

#[test]
fn lobby_poll_drops_closed_sessions_and_sees_a_start() {
    let mut channels: Channels<u32, u64> = Channels::new();
    for i in 0..4u32 {
        channels.add_session(i, i as u64);
    }
    let start = lobby_poll(
        &vec![LobbyPoll::Empty, LobbyPoll::Closed, LobbyPoll::StartRequested, LobbyPoll::Unexpected],
        &mut channels,
    );
    assert!(start);
    assert_eq!(channels.size, 2);
    assert_eq!(channels.senders, vec![0, 2]);
    assert_eq!(channels.receivers, vec![0, 2]);
    let start = lobby_poll(&vec![LobbyPoll::Empty, LobbyPoll::Empty], &mut channels);
    assert!(!start);
    assert_eq!(channels.size, 2);
}

#[test]
fn coordinator_phases_of_a_match() {
    let mut phase = CoordinatorPhase::Lobby;
    let mut seen = vec![];
    for _ in 0..12 {
        phase = next_phase(phase, 2);
        seen.push(phase);
    }
    assert_eq!(
        seen[..8].to_vec(),
        vec![
            CoordinatorPhase::ExitLobby,
            CoordinatorPhase::SendConfig,
            CoordinatorPhase::NewTurn,
            CoordinatorPhase::WaitDirection,
            CoordinatorPhase::Gather,
            CoordinatorPhase::SendTurnResult,
            CoordinatorPhase::SendState,
            CoordinatorPhase::NewTurn,
        ]
    );
    assert_eq!(next_phase(CoordinatorPhase::SendState, 0), CoordinatorPhase::Over);
    assert_eq!(next_phase(CoordinatorPhase::SendConfig, 0), CoordinatorPhase::Over);
    assert_eq!(next_phase(CoordinatorPhase::Over, 0), CoordinatorPhase::Lobby);
}

#[test]
fn phase_events_carry_the_game() {
    let (_, game) = match_of(2);
    assert!(matches!(phase_event(CoordinatorPhase::ExitLobby, &game), Some(ClientEvent::ExitLobby)));
    match phase_event(CoordinatorPhase::SendConfig, &game) {
        Some(ClientEvent::SendConfig(c)) => {
            assert_eq!((c.width, c.height), (20, 20));
            assert_eq!(c.snakes, game.snakes_to_vec());
        },
        _ => panic!("expected the configuration"),
    }
    match phase_event(CoordinatorPhase::SendState, &game) {
        Some(ClientEvent::SendClientGameState(d)) => assert_eq!(d.states, game.states),
        _ => panic!("expected the states"),
    }
    assert!(phase_event(CoordinatorPhase::Gather, &game).is_none());
    assert!(phase_event(CoordinatorPhase::Over, &game).is_none());
}
