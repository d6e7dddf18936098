use snake_server::coordinator::GameConfig;
use snake_server::game::{Collision, Game, GameState, Point, HEIGHT, WIDTH};
use snake_server::snake::{Direction, Snake};

fn p(x: u16, y: u16) -> Point {
    Point { x, y }
}

fn snake(body: Vec<Point>, direction: Direction) -> Snake {
    Snake { body, direction }
}

fn one_snake_game(body: Vec<Point>, direction: Direction, food: Point) -> Game {
    Game {
        snakes: vec![snake(body, direction)],
        food,
        width: 20,
        height: 20,
        states: vec![GameState::Playing],
    }
}

fn on_any_snake(game: &Game, point: Point) -> bool {
    game.snakes.iter().any(|s| s.body.contains(&point))
}

#[test]
fn move_right_drops_tail_and_advances_head() {
    let mut s = snake(vec![p(9, 5), p(10, 5), p(11, 5)], Direction::Right);
    s._move();
    assert_eq!(s.body, vec![p(10, 5), p(11, 5), p(12, 5)]);
    assert_eq!(s.direction, Direction::Right);
}

#[test]
fn move_in_each_direction() {
    let start = vec![p(9, 5), p(10, 5), p(10, 6)];
    let cases = [
        (Direction::Up, p(10, 5)),
        (Direction::Down, p(10, 7)),
        (Direction::Left, p(9, 6)),
        (Direction::Right, p(11, 6)),
    ];
    for (d, head) in cases {
        let mut s = snake(start.clone(), d);
        s._move();
        assert_eq!(s.body, vec![p(10, 5), p(10, 6), head]);
        assert_eq!(s.body.len(), 3);
    }
}

#[test]
fn reversing_moves_into_the_neck() {
    let mut s = snake(vec![p(9, 5), p(10, 5), p(11, 5)], Direction::Left);
    s._move();
    assert_eq!(s.body, vec![p(10, 5), p(11, 5), p(10, 5)]);
    assert!(s._check_self_collision());
}

#[test]
fn grow_appends_the_food_cell() {
    let mut s = snake(vec![p(9, 5), p(10, 5), p(11, 5)], Direction::Right);
    s._grow(p(12, 5));
    assert_eq!(s.body, vec![p(9, 5), p(10, 5), p(11, 5), p(12, 5)]);
}

#[test]
fn overlap_checks_every_segment() {
    let s = snake(vec![p(9, 5), p(10, 5), p(11, 5)], Direction::Right);
    assert!(s._do_overlap(p(9, 5)));
    assert!(s._do_overlap(p(11, 5)));
    assert!(!s._do_overlap(p(12, 5)));
    assert!(!s._do_overlap(p(10, 6)));
}

#[test]
fn border_collision_at_one_and_at_the_size() {
    let head_at = |x: u16, y: u16| snake(vec![p(5, 5), p(5, 6), p(x, y)], Direction::Up);
    assert!(head_at(1, 10)._check_border_collisions(20, 20));
    assert!(head_at(20, 10)._check_border_collisions(20, 20));
    assert!(head_at(10, 1)._check_border_collisions(20, 20));
    assert!(head_at(10, 20)._check_border_collisions(20, 20));
    assert!(!head_at(2, 10)._check_border_collisions(20, 20));
    assert!(!head_at(19, 19)._check_border_collisions(20, 20));
    assert!(!head_at(10, 10)._check_border_collisions(20, 20));
    assert!(head_at(12, 3)._check_border_collisions(12, 30));
}

#[test]
fn self_collision_ignores_the_head_itself() {
    let straight = snake(vec![p(9, 5), p(10, 5), p(11, 5)], Direction::Right);
    assert!(!straight._check_self_collision());
    let looped = snake(vec![p(10, 5), p(10, 6), p(11, 6), p(11, 5), p(10, 5)], Direction::Left);
    assert!(looped._check_self_collision());
}

#[test]
fn food_collision_is_on_the_head_only() {
    let s = snake(vec![p(9, 5), p(10, 5), p(11, 5)], Direction::Right);
    assert!(s._check_food_collision(p(11, 5)));
    assert!(!s._check_food_collision(p(10, 5)));
}

#[test]
fn init_places_players_on_spread_rows() {
    let s0 = Snake::init(0, 2, 20, 20);
    let s1 = Snake::init(1, 2, 20, 20);
    assert_eq!(s0.body, vec![p(9, 5), p(10, 5), p(11, 5)]);
    assert_eq!(s1.body, vec![p(9, 10), p(10, 10), p(11, 10)]);
    assert_eq!(s0.direction, Direction::Right);
    let solo = Snake::init(0, 1, 20, 20);
    assert_eq!(solo.body, vec![p(9, 10), p(10, 10), p(11, 10)]);
}

#[test]
fn new_game_of_two_players() {
    let game = Game::new(2);
    assert_eq!(game.width, WIDTH);
    assert_eq!(game.height, HEIGHT);
    assert_eq!(game.snakes.len(), 2);
    assert_eq!(game.states, vec![GameState::Ready, GameState::Ready]);
    assert_eq!(game.snakes[0].body, vec![p(9, 5), p(10, 5), p(11, 5)]);
    assert_eq!(game.snakes[1].body, vec![p(9, 10), p(10, 10), p(11, 10)]);
    assert!(game.food.x >= 2 && game.food.x <= 18);
    assert!(game.food.y >= 2 && game.food.y <= 18);
    assert!(!on_any_snake(&game, game.food));
}

#[test]
fn new_game_of_four_players() {
    let game = Game::new(4);
    let rows: Vec<u16> = game.snakes.iter().map(|s| s.body[2].y).collect();
    assert_eq!(rows, vec![2, 4, 6, 8]);
    assert_eq!(game.states.len(), 4);
    assert!(!on_any_snake(&game, game.food));
}

#[test]
fn config_of_a_two_player_match() {
    let game = Game::new(2);
    let config = GameConfig::new(&game);
    assert_eq!(config.width, 20);
    assert_eq!(config.height, 20);
    assert_eq!(config.snakes.len(), 2);
    assert_eq!(config.snakes[0], vec![p(9, 5), p(10, 5), p(11, 5)]);
    assert_eq!(config.snakes[1], vec![p(9, 10), p(10, 10), p(11, 10)]);
    assert_eq!(config.food, game.food);
}

#[test]
fn turn_moves_a_snake() {
    let mut game = one_snake_game(vec![p(9, 5), p(10, 5), p(11, 5)], Direction::Right, p(3, 3));
    game.play_turn();
    assert_eq!(game.snakes[0].body, vec![p(10, 5), p(11, 5), p(12, 5)]);
    assert_eq!(game.states, vec![GameState::Playing]);
    assert_eq!(game.food, p(3, 3));
}

#[test]
fn eating_food_grows_and_moves_the_food() {
    let mut game = one_snake_game(vec![p(9, 5), p(10, 5), p(11, 5)], Direction::Right, p(12, 5));
    game.play_turn();
    assert_eq!(game.snakes[0].body, vec![p(9, 5), p(10, 5), p(11, 5), p(12, 5)]);
    assert_eq!(game.states, vec![GameState::Playing]);
    assert!(!on_any_snake(&game, game.food));
    assert!(game.food.x >= 2 && game.food.x <= 18 && game.food.y >= 2 && game.food.y <= 18);
}

#[test]
fn hitting_the_border_loses() {
    let mut game = one_snake_game(vec![p(4, 5), p(3, 5), p(2, 5)], Direction::Left, p(10, 10));
    game.play_turn();
    assert_eq!(game.snakes[0].body, vec![p(3, 5), p(2, 5), p(1, 5)]);
    assert_eq!(game.states, vec![GameState::Lost]);
}

#[test]
fn a_lost_snake_stays_frozen() {
    let mut game = one_snake_game(vec![p(4, 5), p(3, 5), p(2, 5)], Direction::Left, p(10, 10));
    game.play_turn();
    game.play_turn();
    assert_eq!(game.snakes[0].body, vec![p(3, 5), p(2, 5), p(1, 5)]);
    assert_eq!(game.states, vec![GameState::Lost]);
}

#[test]
fn border_beats_food() {
    let mut game = one_snake_game(vec![p(12, 4), p(12, 3), p(12, 2)], Direction::Up, p(12, 1));
    game.play_turn();
    assert_eq!(game.states, vec![GameState::Lost]);
    assert_eq!(game.snakes[0].body.len(), 3);
    assert_eq!(game.food, p(12, 1));
}

#[test]
fn running_into_another_snake_loses() {
    let mut game = Game {
        snakes: vec![
            snake(vec![p(5, 5), p(6, 5), p(7, 5)], Direction::Right),
            snake(vec![p(8, 3), p(8, 4), p(8, 5)], Direction::Down),
        ],
        food: p(15, 15),
        width: 20,
        height: 20,
        states: vec![GameState::Playing, GameState::Playing],
    };
    game.play_turn();
    assert_eq!(game.snakes[0].body, vec![p(6, 5), p(7, 5), p(8, 5)]);
    assert_eq!(game.snakes[1].body, vec![p(8, 4), p(8, 5), p(8, 6)]);
    assert_eq!(game.states, vec![GameState::Lost, GameState::Playing]);
}

#[test]
fn check_collisions_classifies() {
    let game = Game {
        snakes: vec![
            snake(vec![p(5, 5), p(6, 5), p(7, 5)], Direction::Right),
            snake(vec![p(8, 3), p(8, 4), p(7, 5)], Direction::Down),
            snake(vec![p(10, 10), p(11, 10), p(12, 10)], Direction::Right),
            snake(vec![p(15, 15), p(16, 15), p(17, 15)], Direction::Right),
        ],
        food: p(12, 10),
        width: 20,
        height: 20,
        states: vec![GameState::Playing; 4],
    };
    assert_eq!(game.check_collisions(0), Collision::BorderOrSnake);
    assert!(game.check_snake_collisions(0));
    assert_eq!(game.check_collisions(2), Collision::Food);
    assert_eq!(game.check_collisions(3), Collision::Clear);
    assert!(!game.check_snake_collisions(3));
}

#[test]
fn set_states_sets_every_player() {
    let mut game = Game::new(3);
    game.set_states(GameState::Playing);
    assert_eq!(game.states, vec![GameState::Playing; 3]);
}

#[test]
fn set_directions_by_index() {
    let mut game = Game::new(2);
    game.set_directions(&vec![Direction::Up, Direction::Left]);
    assert_eq!(game.snakes[0].direction, Direction::Up);
    assert_eq!(game.snakes[1].direction, Direction::Left);
    assert_eq!(game.snakes[0].body, vec![p(9, 5), p(10, 5), p(11, 5)]);
}

#[test]
fn snakes_to_vec_copies_bodies() {
    let game = Game::new(2);
    let v = game.snakes_to_vec();
    assert_eq!(v, vec![game.snakes[0].body.clone(), game.snakes[1].body.clone()]);
}

fn crowded_game(frozen: Vec<Point>) -> Game {
    Game {
        snakes: vec![
            snake(vec![p(4, 2), p(4, 3), p(3, 3)], Direction::Left),
            snake(frozen, Direction::Up),
        ],
        food: p(2, 3),
        width: 5,
        height: 5,
        states: vec![GameState::Playing, GameState::Lost],
    }
}

#[test]
fn food_goes_to_the_only_free_cell() {
    let mut game = crowded_game(vec![p(1, 1), p(1, 2), p(3, 2)]);
    game.play_turn();
    assert_eq!(game.snakes[0].body, vec![p(4, 2), p(4, 3), p(3, 3), p(2, 3)]);
    assert_eq!(game.snakes[1].body, vec![p(1, 1), p(1, 2), p(3, 2)]);
    assert_eq!(game.food, p(2, 2));
    assert_eq!(game.states, vec![GameState::Playing, GameState::Lost]);
}

#[test]
fn food_stays_when_no_cell_is_free() {
    let mut game = crowded_game(vec![p(1, 1), p(2, 2), p(3, 2)]);
    game.play_turn();
    assert_eq!(game.snakes[0].body.len(), 4);
    assert_eq!(game.food, p(2, 3));
}

#[test]
fn food_is_drawn_at_random() {
    let first = Game::new(1).food;
    let mut varied = false;
    for _ in 0..64 {
        let game = Game::new(1);
        assert!(game.food.x >= 2 && game.food.x <= 18 && game.food.y >= 2 && game.food.y <= 18);
        assert!(!on_any_snake(&game, game.food));
        if game.food != first {
            varied = true;
        }
    }
    assert!(varied);
}

#[test]
fn a_ready_snake_neither_moves_nor_loses() {
    let mut game = one_snake_game(vec![p(4, 5), p(3, 5), p(2, 5)], Direction::Left, p(10, 10));
    game.states[0] = GameState::Ready;
    game.play_turn();
    assert_eq!(game.snakes[0].body, vec![p(4, 5), p(3, 5), p(2, 5)]);
    assert_eq!(game.states, vec![GameState::Ready]);
}

#[test]
fn init_on_narrow_and_tall_boards() {
    let narrow = Snake::init(0, 1, 2, 20);
    assert_eq!(narrow.body, vec![p(0, 10), p(1, 10), p(2, 10)]);
    let tall = Snake::init(2, 3, 30, 600);
    assert_eq!(tall.body, vec![p(14, 300), p(15, 300), p(16, 300)]);
}
