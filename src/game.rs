use vstd::prelude::*;

use crate::coordinator::MAX_CLIENTS;
use crate::snake::{initial_body, moved, on_border, start_row, Direction, Snake};
use rand::Rng;

verus! {

/// Milliseconds between two turns.
pub const SPEED: usize = 1000;

/// Width of the board of every match.
pub const WIDTH: usize = 20;

/// Height of the board of every match.
pub const HEIGHT: usize = 20;

/// How many random cells are drawn for the food before the board is scanned
/// for a free cell.
pub const FOOD_DRAWS: usize = 256;

/// An integer grid coordinate.
#[derive(Clone, Copy, Debug, PartialEq, Eq, Structural)]
pub struct Point {
    pub x: u16,
    pub y: u16,
}

/// An event announced to the clients.
#[derive(Clone, Copy, Debug, PartialEq, Eq, Structural)]
pub enum GameEvent {
    WaitInLobby,
    Start,
    NewTurn,
}

/// What a snake ran into after moving (`Clear`: nothing).
#[derive(Clone, Copy, Debug, PartialEq, Eq, Structural)]
pub enum Collision {
    Clear,
    Food,
    BorderOrSnake,
}

/// A player's lifecycle: in the lobby, in the match, or eliminated.
#[derive(Clone, Copy, Debug, PartialEq, Eq, Structural)]
pub enum GameState {
    Ready,
    Playing,
    Lost,
}

/// The authoritative state of a match. `snakes` and `states` are indexed by
/// player.
pub struct Game {
    pub snakes: Vec<Snake>,
    pub food: Point,
    pub width: usize,
    pub height: usize,
    pub states: Vec<GameState>,
}

/// What a turn reads and writes: the bodies, the states and the food.
pub type Board = (Seq<Seq<Point>>, Seq<GameState>, Point);

/// A cell where food may be placed: off the border, with a margin of one cell.
pub open spec fn interior(p: Point, width: int, height: int) -> bool {
    2 <= p.x <= width - 2 && 2 <= p.y <= height - 2
}

/// A cell strictly inside the border.
pub open spec fn inside(p: Point, width: int, height: int) -> bool {
    2 <= p.x <= width - 1 && 2 <= p.y <= height - 1
}

/// A cell inside the border or on it.
pub open spec fn near(p: Point, width: int, height: int) -> bool {
    1 <= p.x <= width && 1 <= p.y <= height
}

/// Some segment of some body lies on `p`.
pub open spec fn occupied(bodies: Seq<Seq<Point>>, p: Point) -> bool {
    exists|s: int, k: int| 0 <= s < bodies.len() && 0 <= k < bodies[s].len() && #[trigger] bodies[s][k] == p
}

/// Some interior cell is free of every body.
pub open spec fn has_free_cell(bodies: Seq<Seq<Point>>, width: int, height: int) -> bool {
    exists|p: Point| interior(p, width, height) && !#[trigger] occupied(bodies, p)
}

/// Where the food goes once it is placed on a board holding `bodies`: on a
/// free interior cell if there is one, else it stays where it was.
pub open spec fn food_placed(bodies: Seq<Seq<Point>>, before: Point, after: Point, width: int, height: int) -> bool {
    if has_free_cell(bodies, width, height) {
        interior(after, width, height) && !occupied(bodies, after)
    } else {
        after == before
    }
}

/// The head of body `id` lies on a segment of any body, its own included,
/// other than that head itself.
pub open spec fn hits_snake(bodies: Seq<Seq<Point>>, id: int) -> bool {
    exists|s: int, k: int|
        0 <= s < bodies.len() && 0 <= k < bodies[s].len() && !(s == id && k == bodies[id].len() - 1)
            && #[trigger] bodies[s][k] == bodies[id].last()
}

/// The collision of snake `id`: the border or a body first, then the food.
pub open spec fn collision_of(bodies: Seq<Seq<Point>>, food: Point, width: int, height: int, id: int) -> Collision {
    if on_border(bodies[id].last(), width, height) || hits_snake(bodies, id) {
        Collision::BorderOrSnake
    } else if bodies[id].last() == food {
        Collision::Food
    } else {
        Collision::Clear
    }
}

/// The bodies after every snake in play moved one cell.
pub open spec fn after_moves(snakes: Seq<Snake>, states: Seq<GameState>) -> Seq<Seq<Point>> {
    Seq::new(
        snakes.len(),
        |i: int|
            if states[i] == GameState::Playing {
                moved(snakes[i].body@, snakes[i].direction)
            } else {
                snakes[i].body@
            },
    )
}

/// How snake `id` is resolved, from board `b` to board `a`, `before_move`
/// being its body before the turn's move. A snake that is not in play (still
/// ready, or lost) is left as it is. One that hit the border or a body loses. One that reached the food
/// takes back its body from before the move plus the food's cell, and the food
/// is placed again.
pub open spec fn resolved(b: Board, a: Board, id: int, before_move: Seq<Point>, width: int, height: int) -> bool {
    if b.1[id] != GameState::Playing {
        a == b
    } else {
        match collision_of(b.0, b.2, width, height, id) {
            Collision::BorderOrSnake => a == (b.0, b.1.update(id, GameState::Lost), b.2),
            Collision::Food => a.0 == b.0.update(id, before_move.push(b.2)) && a.1 == b.1
                && food_placed(a.0, b.2, a.2, width, height),
            Collision::Clear => a == b,
        }
    }
}

/// `t` resolves the snakes one after the other, in index order, from `start`.
pub open spec fn turn_trace(t: Seq<Board>, start: Board, before_move: Seq<Seq<Point>>, width: int, height: int) -> bool {
    &&& t.len() == start.0.len() + 1
    &&& t[0] == start
    &&& forall|i: int| 0 <= i < t.len() ==> (#[trigger] t[i]).0.len() == start.0.len() && t[i].1.len() == start.0.len()
    &&& forall|i: int| 0 <= i < start.0.len() ==> #[trigger] resolved(t[i], t[i + 1], i, before_move[i], width, height)
}

/// Wherever the food is placed on a board that has a free interior cell, it
/// lies on an interior cell that no snake segment occupies.
pub proof fn lemma_food_avoids_snakes(bodies: Seq<Seq<Point>>, before: Point, after: Point, width: int, height: int)
    requires
        food_placed(bodies, before, after, width, height),
        has_free_cell(bodies, width, height),
    ensures
        interior(after, width, height),
        forall|s: int, k: int| 0 <= s < bodies.len() && 0 <= k < bodies[s].len() ==> #[trigger] bodies[s][k] != after,
{
}

/// In a turn, a snake that reaches the food grows by exactly one segment: its
/// body becomes the one it had before the turn's move, one longer, ending on
/// the cell where the food was.
pub proof fn lemma_growth(t: Seq<Board>, start: Board, before_move: Seq<Seq<Point>>, width: int, height: int, id: int)
    requires
        turn_trace(t, start, before_move, width, height),
        0 <= id < start.0.len(),
        before_move.len() == start.0.len(),
        t[id].1[id] == GameState::Playing,
        collision_of(t[id].0, t[id].2, width, height, id) == Collision::Food,
    ensures
        t[id + 1].0[id].len() == before_move[id].len() + 1,
        t[id + 1].0[id].last() == t[id].2,
        t[id + 1].0[id] == before_move[id].push(t[id].2),
{
    assert(resolved(t[id], t[id + 1], id, before_move[id], width, height));
}

/// In a turn, resolving one snake leaves every other snake's body and state
/// as they were: before its own step a snake is as it was after the move,
/// and after its step it stays as that step left it.
pub proof fn lemma_trace_frame(
    t: Seq<Board>,
    start: Board,
    before_move: Seq<Seq<Point>>,
    width: int,
    height: int,
    i: int,
    k: int,
)
    requires
        turn_trace(t, start, before_move, width, height),
        0 <= i < start.0.len(),
        0 <= k <= start.0.len(),
    ensures
        k <= i ==> t[k].0[i] == start.0[i] && t[k].1[i] == start.1[i],
        k > i ==> t[k].0[i] == t[i + 1].0[i] && t[k].1[i] == t[i + 1].1[i],
    decreases k,
{
    if k > 0 {
        lemma_trace_frame(t, start, before_move, width, height, i, k - 1);
        let j = k - 1;
        assert(resolved(t[j], t[j + 1], j, before_move[j], width, height));
        assert(t[j].0.len() == start.0.len() && t[j + 1].0.len() == start.0.len());
        assert(t[j].1.len() == start.0.len() && t[j + 1].1.len() == start.0.len());
        if j != i {
            assert(t[j + 1].0[i] == t[j].0[i] && t[j + 1].1[i] == t[j].1[i]);
        }
    }
}

/// In a turn, a snake in play whose head lands on the border after the move
/// loses, and keeps the moved body: the border wins over the food.
pub proof fn lemma_turn_border(t: Seq<Board>, start: Board, before_move: Seq<Seq<Point>>, width: int, height: int, i: int)
    requires
        turn_trace(t, start, before_move, width, height),
        0 <= i < start.0.len(),
        start.1[i] == GameState::Playing,
        on_border(start.0[i].last(), width, height),
    ensures
        t.last().1[i] == GameState::Lost,
        t.last().0[i] == start.0[i],
{
    let n = start.0.len() as int;
    lemma_trace_frame(t, start, before_move, width, height, i, i);
    lemma_trace_frame(t, start, before_move, width, height, i, n);
    assert(resolved(t[i], t[i + 1], i, before_move[i], width, height));
    assert(t[i].1.len() == n);
}

/// In a turn, a snake in play whose moved head is on the food as it lies when
/// the snake is resolved, off the border and on no other segment, ends the
/// turn in play, one segment longer than before the move, its new head on
/// that food cell.
pub proof fn lemma_turn_growth(t: Seq<Board>, start: Board, before_move: Seq<Seq<Point>>, width: int, height: int, i: int)
    requires
        turn_trace(t, start, before_move, width, height),
        0 <= i < start.0.len(),
        before_move.len() == start.0.len(),
        start.1[i] == GameState::Playing,
        !on_border(start.0[i].last(), width, height),
        !hits_snake(t[i].0, i),
        start.0[i].last() == t[i].2,
    ensures
        t.last().1[i] == GameState::Playing,
        t.last().0[i] == before_move[i].push(t[i].2),
        t.last().0[i].len() == before_move[i].len() + 1,
{
    let n = start.0.len() as int;
    lemma_trace_frame(t, start, before_move, width, height, i, i);
    lemma_trace_frame(t, start, before_move, width, height, i, n);
    assert(resolved(t[i], t[i + 1], i, before_move[i], width, height));
    assert(t[i].1.len() == n && t[i].0.len() == n);
}

/// The bodies held by a sequence of vectors.
pub open spec fn rows(v: Seq<Vec<Point>>) -> Seq<Seq<Point>> {
    v.map_values(|r: Vec<Point>| r@)
}

/// Relies on rand's `thread_rng` and `Rng::gen_range`: a value drawn from
/// `lo..hi`, which must not be empty (`gen_range` panics on an empty range;
/// `thread_rng` panics only if the system's entropy source cannot seed it).
#[verifier::external_body]
fn random_coordinate(lo: u16, hi: u16) -> (r: u16)
    requires
        lo < hi,
    ensures
        lo <= r < hi,
{
    rand::thread_rng().gen_range(lo..hi)
}

/// A copy of a body.
pub fn copy_points(v: &Vec<Point>) -> (r: Vec<Point>)
    ensures
        r@ == v@,
{
    let mut r: Vec<Point> = Vec::new();
    let mut i: usize = 0;
    while i < v.len()
        invariant
            i <= v@.len(),
            r@ == v@.subrange(0, i as int),
        decreases v@.len() - i,
    {
        r.push(v[i]);
        i += 1;
        assert(r@ =~= v@.subrange(0, i as int));
    }
    assert(r@ =~= v@);
    r
}

impl Game {
    /// The bodies of the snakes.
    pub open spec fn bodies(&self) -> Seq<Seq<Point>> {
        self.snakes@.map_values(|s: Snake| s.body@)
    }

    /// The bodies, states and food.
    pub open spec fn board(&self) -> Board {
        (self.bodies(), self.states@, self.food)
    }

    /// The board size leaves room for food and fits in a coordinate.
    pub open spec fn dims_ok(&self) -> bool {
        4 <= self.width < 65535 && 4 <= self.height < 65535
    }

    /// One state per snake, every snake of three segments or more, and the
    /// head of every snake that has not lost strictly inside the border.
    pub open spec fn wf(&self) -> bool {
        &&& self.snakes@.len() == self.states@.len()
        &&& self.dims_ok()
        &&& forall|i: int| 0 <= i < self.snakes@.len() ==> (#[trigger] self.snakes@[i]).wf()
        &&& forall|i: int|
            0 <= i < self.snakes@.len() && self.states@[i] != GameState::Lost ==> inside(
                (#[trigger] self.snakes@[i]).head(),
                self.width as int,
                self.height as int,
            )
    }
}

/// On the standard board every player starts on a row strictly inside the
/// border.
proof fn lemma_start_row_inside(id: int, nb: int)
    requires
        0 <= id < nb <= MAX_CLIENTS,
    ensures
        2 <= start_row(id, nb, HEIGHT as int) <= HEIGHT - 2,
{
    let h = HEIGHT as int;
    assert(h == 20);
    if nb == 1 {
        assert(h / (2 * nb) == 10) by (nonlinear_arith)
            requires
                nb == 1,
                h == 20,
        {
        }
        assert(start_row(id, nb, h) == 10 * (id + 1));
    } else if nb == 2 {
        assert(h / (2 * nb) == 5) by (nonlinear_arith)
            requires
                nb == 2,
                h == 20,
        {
        }
        assert(start_row(id, nb, h) == 5 * (id + 1));
    } else if nb == 3 {
        assert(h / (2 * nb) == 3) by (nonlinear_arith)
            requires
                nb == 3,
                h == 20,
        {
        }
        assert(start_row(id, nb, h) == 3 * (id + 1));
    } else {
        assert(h / (2 * nb) == 2) by (nonlinear_arith)
            requires
                nb == 4,
                h == 20,
        {
        }
        assert(start_row(id, nb, h) == 2 * (id + 1));
    }
}

impl Game {
    /// A new match of `nb` players on the standard board: player `i` starts
    /// with `initial_body(i, nb, ..)` heading right, every state is `Ready`,
    /// and the food is on a free interior cell.
    pub fn new(nb: usize) -> (r: Game)
        requires
            1 <= nb <= MAX_CLIENTS,
        ensures
            r.wf(),
            r.width == WIDTH,
            r.height == HEIGHT,
            r.snakes@.len() == nb,
            forall|i: int|
                0 <= i < nb ==> (#[trigger] r.snakes@[i]).body@ == initial_body(
                    i,
                    nb as int,
                    WIDTH as int,
                    HEIGHT as int,
                ) && r.snakes@[i].direction == Direction::Right,
            forall|i: int| 0 <= i < nb ==> #[trigger] r.states@[i] == GameState::Ready,
            interior(r.food, WIDTH as int, HEIGHT as int),
            !occupied(r.bodies(), r.food),
    {
        let mut snakes: Vec<Snake> = Vec::new();
        let mut states: Vec<GameState> = Vec::new();
        let mut id: usize = 0;
        while id < nb
            invariant
                1 <= nb <= MAX_CLIENTS,
                id <= nb,
                snakes@.len() == id,
                states@.len() == id,
                forall|i: int|
                    0 <= i < id ==> (#[trigger] snakes@[i]).body@ == initial_body(
                        i,
                        nb as int,
                        WIDTH as int,
                        HEIGHT as int,
                    ) && snakes@[i].direction == Direction::Right && snakes@[i].wf(),
                forall|i: int| 0 <= i < id ==> #[trigger] states@[i] == GameState::Ready,
            decreases nb - id,
        {
            proof {
                lemma_start_row_inside(id as int, nb as int);
            }
            snakes.push(Snake::init(id, nb, WIDTH, HEIGHT));
            states.push(GameState::Ready);
            id += 1;
        }
        let mut game = Game { snakes, food: Point { x: 0, y: 0 }, width: WIDTH, height: HEIGHT, states };
        assert forall|i: int| 0 <= i < nb implies inside(
            (#[trigger] game.snakes@[i]).head(),
            WIDTH as int,
            HEIGHT as int,
        ) by {
            lemma_start_row_inside(i, nb as int);
        }
        let corner = Point { x: 2, y: 2 };
        assert forall|s: int, k: int| 0 <= s < nb && 0 <= k < game.bodies()[s].len() implies
            #[trigger] game.bodies()[s][k] != corner by {
            assert(game.bodies()[s] == game.snakes@[s].body@);
        }
        assert(interior(corner, WIDTH as int, HEIGHT as int) && !occupied(game.bodies(), corner));
        game.create_food();
        game
    }

    /// Whether a segment of some snake lies on `point`.
    fn do_overlap(&self, point: Point) -> (r: bool)
        ensures
            r == occupied(self.bodies(), point),
    {
        let mut i: usize = 0;
        while i < self.snakes.len()
            invariant
                i <= self.snakes@.len(),
                forall|s: int, k: int|
                    0 <= s < i && 0 <= k < self.bodies()[s].len() ==> self.bodies()[s][k] != point,
            decreases self.snakes@.len() - i,
        {
            if self.snakes[i]._do_overlap(point) {
                assert(self.bodies()[i as int] == self.snakes@[i as int].body@);
                let ghost k = choose|k: int| 0 <= k < self.snakes@[i as int].body@.len()
                    && self.snakes@[i as int].body@[k] == point;
                assert(self.bodies()[i as int][k] == point);
                return true;
            }
            assert(self.bodies()[i as int] == self.snakes@[i as int].body@);
            i += 1;
        }
        false
    }

    /// Places the food on a free interior cell: cells are drawn at random
    /// until one is free, and after `FOOD_DRAWS` draws the board is scanned
    /// for the first free cell. On a board with no free interior cell the food
    /// stays where it was.
    fn create_food(&mut self)
        requires
            old(self).dims_ok(),
        ensures
            final(self).snakes == old(self).snakes,
            final(self).states == old(self).states,
            final(self).width == old(self).width,
            final(self).height == old(self).height,
            food_placed(
                old(self).bodies(),
                old(self).food,
                final(self).food,
                old(self).width as int,
                old(self).height as int,
            ),
    {
        let x_end = (self.width - 1) as u16;
        let y_end = (self.height - 1) as u16;
        let mut draws: usize = 0;
        while draws < FOOD_DRAWS
            invariant
                self.dims_ok(),
                x_end == self.width - 1,
                y_end == self.height - 1,
                self.snakes == old(self).snakes,
                self.states == old(self).states,
                self.width == old(self).width,
                self.height == old(self).height,
                self.food == old(self).food,
            decreases FOOD_DRAWS - draws,
        {
            let point = Point { x: random_coordinate(2, x_end), y: random_coordinate(2, y_end) };
            if !self.do_overlap(point) {
                self.food = point;
                return;
            }
            draws += 1;
        }
        let mut x: u16 = 2;
        while x < x_end
            invariant
                self.dims_ok(),
                2 <= x <= x_end,
                x_end == self.width - 1,
                y_end == self.height - 1,
                self.snakes == old(self).snakes,
                self.states == old(self).states,
                self.width == old(self).width,
                self.height == old(self).height,
                self.food == old(self).food,
                forall|p: Point|
                    interior(p, self.width as int, self.height as int) && p.x < x ==> #[trigger] occupied(
                        self.bodies(),
                        p,
                    ),
            decreases x_end - x,
        {
            let mut y: u16 = 2;
            while y < y_end
                invariant
                    self.dims_ok(),
                    2 <= x < x_end,
                    2 <= y <= y_end,
                    x_end == self.width - 1,
                    y_end == self.height - 1,
                    self.snakes == old(self).snakes,
                    self.states == old(self).states,
                    self.width == old(self).width,
                    self.height == old(self).height,
                    self.food == old(self).food,
                    forall|p: Point|
                        interior(p, self.width as int, self.height as int) && (p.x < x || (p.x == x
                            && p.y < y)) ==> #[trigger] occupied(self.bodies(), p),
                decreases y_end - y,
            {
                let point = Point { x, y };
                if !self.do_overlap(point) {
                    self.food = point;
                    return;
                }
                y += 1;
            }
            x += 1;
        }
    }

    /// Whether the head of snake `id` lies on a segment of any snake, its own
    /// included, other than that head itself.
    pub fn check_snake_collisions(&self, id: usize) -> (r: bool)
        requires
            id < self.snakes@.len(),
            self.snakes@[id as int].wf(),
        ensures
            r == hits_snake(self.bodies(), id as int),
    {
        let last_index = self.snakes[id].body.len() - 1;
        let last = self.snakes[id].body[last_index];
        let ghost bodies = self.bodies();
        assert(bodies[id as int] == self.snakes@[id as int].body@);
        let mut s: usize = 0;
        while s < self.snakes.len()
            invariant
                s <= self.snakes@.len(),
                bodies == self.bodies(),
                id < bodies.len(),
                last_index == bodies[id as int].len() - 1,
                last == bodies[id as int].last(),
                forall|s2: int, k: int|
                    0 <= s2 < s && 0 <= k < bodies[s2].len() && !(s2 == id && k == last_index)
                        ==> bodies[s2][k] != last,
            decreases self.snakes@.len() - s,
        {
            let body = &self.snakes[s].body;
            assert(bodies[s as int] == body@);
            let mut k: usize = 0;
            while k < body.len()
                invariant
                    s < bodies.len(),
                    bodies == self.bodies(),
                    bodies[s as int] == body@,
                    k <= body@.len(),
                    id < bodies.len(),
                    last_index == bodies[id as int].len() - 1,
                    last == bodies[id as int].last(),
                    forall|s2: int, k2: int|
                        0 <= s2 < s && 0 <= k2 < bodies[s2].len() && !(s2 == id && k2 == last_index)
                            ==> bodies[s2][k2] != last,
                    forall|k2: int| 0 <= k2 < k && !(s == id && k2 == last_index) ==> body@[k2] != last,
                decreases body@.len() - k,
            {
                if !(s == id && k == last_index) && body[k].x == last.x && body[k].y == last.y {
                    assert(bodies[s as int][k as int] == last);
                    assert(!(s as int == id as int && k as int == bodies[id as int].len() - 1));
                    assert(hits_snake(bodies, id as int));
                    return true;
                }
                k += 1;
            }
            s += 1;
        }
        false
    }

    /// The collision of snake `id`: the border or a snake first, then the food.
    pub fn check_collisions(&self, id: usize) -> (r: Collision)
        requires
            id < self.snakes@.len(),
            self.snakes@[id as int].wf(),
            self.dims_ok(),
        ensures
            r == collision_of(self.bodies(), self.food, self.width as int, self.height as int, id as int),
    {
        assert(self.bodies()[id as int] == self.snakes@[id as int].body@);
        if self.snakes[id]._check_border_collisions(self.width, self.height)
            || self.check_snake_collisions(id) {
            return Collision::BorderOrSnake;
        }
        if self.snakes[id]._check_food_collision(self.food) {
            return Collision::Food;
        }
        Collision::Clear
    }

    /// Moves every snake in play by one cell.
    fn move_snakes(&mut self)
        requires
            old(self).wf(),
        ensures
            final(self).bodies() == after_moves(old(self).snakes@, old(self).states@),
            final(self).snakes@.len() == old(self).snakes@.len(),
            final(self).states == old(self).states,
            final(self).food == old(self).food,
            final(self).width == old(self).width,
            final(self).height == old(self).height,
            forall|j: int|
                0 <= j < final(self).snakes@.len() ==> (#[trigger] final(self).snakes@[j]).wf()
                    && final(self).snakes@[j].direction == old(self).snakes@[j].direction,
            forall|j: int|
                0 <= j < final(self).snakes@.len() && old(self).states@[j] == GameState::Playing ==> near(
                    (#[trigger] final(self).snakes@[j]).head(),
                    final(self).width as int,
                    final(self).height as int,
                ),
            forall|j: int|
                0 <= j < final(self).snakes@.len() && old(self).states@[j] != GameState::Playing
                    ==> #[trigger] final(self).snakes@[j] == old(self).snakes@[j],
    {
        let ghost w = self.width as int;
        let ghost h = self.height as int;
        let mut i: usize = 0;
        while i < self.snakes.len()
            invariant
                old(self).wf(),
                i <= self.snakes@.len(),
                self.snakes@.len() == old(self).snakes@.len(),
                self.states == old(self).states,
                self.food == old(self).food,
                self.width == old(self).width,
                self.height == old(self).height,
                w == self.width,
                h == self.height,
                forall|j: int|
                    0 <= j < i ==> (#[trigger] self.snakes@[j]).wf() && self.snakes@[j].direction
                        == old(self).snakes@[j].direction && self.snakes@[j].body@ == after_moves(
                        old(self).snakes@,
                        old(self).states@,
                    )[j],
                forall|j: int|
                    0 <= j < i && old(self).states@[j] == GameState::Playing ==> near(
                        (#[trigger] self.snakes@[j]).head(),
                        w,
                        h,
                    ),
                forall|j: int|
                    0 <= j < i && old(self).states@[j] != GameState::Playing ==> #[trigger] self.snakes@[j]
                        == old(self).snakes@[j],
                forall|j: int| i <= j < self.snakes@.len() ==> #[trigger] self.snakes@[j] == old(self).snakes@[j],
            decreases self.snakes@.len() - i,
        {
            if self.states[i] == GameState::Playing {
                assert(self.snakes@[i as int] == old(self).snakes@[i as int]);
                assert(old(self).snakes@[i as int].wf());
                assert(inside(old(self).snakes@[i as int].head(), w, h));
                self.snakes[i]._move();
            }
            i += 1;
        }
        assert(self.bodies() =~= after_moves(old(self).snakes@, old(self).states@));
    }

    /// Plays one turn: every snake in play moves, then the snakes in play are
    /// resolved in index order; a snake still ready or already lost is left
    /// as it is. A snake whose head is on the border or on
    /// a segment of any snake loses; one whose head reached the food grows
    /// instead, keeping the tail it had before the move and gaining the food's
    /// cell, and the food is placed again.
    pub fn play_turn(&mut self)
        requires
            old(self).wf(),
        ensures
            final(self).wf(),
            final(self).width == old(self).width,
            final(self).height == old(self).height,
            final(self).snakes@.len() == old(self).snakes@.len(),
            forall|j: int|
                0 <= j < final(self).snakes@.len() ==> (#[trigger] final(self).snakes@[j]).direction
                    == old(self).snakes@[j].direction,
            forall|j: int|
                0 <= j < final(self).states@.len() ==> #[trigger] final(self).states@[j] == old(self).states@[j]
                    || (old(self).states@[j] == GameState::Playing && final(self).states@[j] == GameState::Lost),
            forall|j: int|
                0 <= j < final(self).snakes@.len() && old(self).states@[j] != GameState::Playing
                    ==> #[trigger] final(self).snakes@[j].body@ == old(self).snakes@[j].body@,
            exists|t: Seq<Board>|
                #[trigger] turn_trace(
                    t,
                    (after_moves(old(self).snakes@, old(self).states@), old(self).states@, old(self).food),
                    old(self).bodies(),
                    old(self).width as int,
                    old(self).height as int,
                ) && t.last() == final(self).board(),
    {
        let ghost w = self.width as int;
        let ghost h = self.height as int;
        let ghost ob = self.bodies();
        let old_positions = self.snakes_to_vec();
        self.move_snakes();
        assert forall|j: int| 0 <= j < self.snakes@.len() && self.states@[j] == GameState::Ready implies inside(
            (#[trigger] self.snakes@[j]).head(),
            w,
            h,
        ) by {
            assert(old(self).snakes@[j].wf());
        }
        let ghost start: Board = self.board();
        let ghost mut t: Seq<Board> = seq![start];
        let n = self.snakes.len();
        let mut id: usize = 0;
        while id < n
            invariant
                self.dims_ok(),
                w == self.width,
                h == self.height,
                w == old(self).width,
                h == old(self).height,
                n == self.snakes@.len(),
                n == self.states@.len(),
                n == ob.len(),
                n == start.0.len(),
                n == start.1.len(),
                old(self).wf(),
                id <= n,
                ob == old(self).bodies(),
                rows(old_positions@) == ob,
                start == (after_moves(old(self).snakes@, old(self).states@), old(self).states@, old(self).food),
                forall|j: int|
                    0 <= j < n ==> (#[trigger] self.snakes@[j]).wf() && self.snakes@[j].direction
                        == old(self).snakes@[j].direction,
                forall|j: int| id <= j < n ==> #[trigger] self.bodies()[j] == start.0[j],
                forall|j: int| id <= j < n ==> #[trigger] self.states@[j] == start.1[j],
                forall|j: int|
                    id <= j < n && self.states@[j] == GameState::Playing ==> near(
                        (#[trigger] self.snakes@[j]).head(),
                        w,
                        h,
                    ),
                forall|j: int|
                    id <= j < n && self.states@[j] == GameState::Ready ==> inside(
                        (#[trigger] self.snakes@[j]).head(),
                        w,
                        h,
                    ),
                forall|j: int|
                    0 <= j < n ==> #[trigger] self.states@[j] == old(self).states@[j] || (old(self).states@[j]
                        == GameState::Playing && self.states@[j] == GameState::Lost),
                forall|j: int|
                    0 <= j < n && old(self).states@[j] != GameState::Playing ==> #[trigger] self.snakes@[j].body@
                        == old(self).snakes@[j].body@,
                forall|j: int|
                    0 <= j < id && self.states@[j] != GameState::Lost ==> inside(
                        (#[trigger] self.snakes@[j]).head(),
                        w,
                        h,
                    ),
                t.len() == id + 1,
                t[0] == start,
                forall|i: int| 0 <= i < t.len() ==> (#[trigger] t[i]).0.len() == n && t[i].1.len() == n,
                t[id as int] == self.board(),
                forall|i: int| 0 <= i < id ==> #[trigger] resolved(t[i], t[i + 1], i, ob[i], w, h),
            decreases n - id,
        {
            let ghost before: Board = self.board();
            assert(self.bodies()[id as int] == self.snakes@[id as int].body@);
            if self.states[id] == GameState::Playing {
                match self.check_collisions(id) {
                    Collision::BorderOrSnake => {
                        self.states[id] = GameState::Lost;
                    },
                    Collision::Food => {
                        let f = self.food;
                        assert(old_positions@[id as int]@ == ob[id as int]);
                        assert(ob[id as int] == old(self).snakes@[id as int].body@);
                        assert(old(self).snakes@[id as int].wf());
                        let body = copy_points(&old_positions[id]);
                        self.snakes[id].body = body;
                        self.snakes[id]._grow(f);
                        assert(self.bodies() =~= before.0.update(id as int, ob[id as int].push(f)));
                        self.create_food();
                    },
                    Collision::Clear => {},
                }
            }
            proof {
                t = t.push(self.board());
            }
            assert(resolved(t[id as int], t[id + 1], id as int, ob[id as int], w, h));
            assert forall|j: int| id < j < n implies #[trigger] self.bodies()[j] == start.0[j] by {
                assert(before.0[j] == start.0[j]);
            }
            assert forall|j: int| id < j < n implies #[trigger] self.states@[j] == start.1[j] by {
                assert(before.1[j] == start.1[j]);
            }
            id += 1;
        }
        assert(turn_trace(t, start, ob, w, h));
    }

    /// Gives snake `i` the direction `directions[i]`, for every `i`.
    pub fn set_directions(&mut self, directions: &Vec<Direction>)
        requires
            old(self).wf(),
            directions@.len() == old(self).snakes@.len(),
        ensures
            final(self).wf(),
            final(self).bodies() == old(self).bodies(),
            final(self).states == old(self).states,
            final(self).food == old(self).food,
            final(self).width == old(self).width,
            final(self).height == old(self).height,
            final(self).snakes@.len() == old(self).snakes@.len(),
            forall|i: int|
                0 <= i < directions@.len() ==> (#[trigger] final(self).snakes@[i]).direction == directions@[i],
    {
        let mut i: usize = 0;
        while i < self.snakes.len()
            invariant
                old(self).wf(),
                directions@.len() == old(self).snakes@.len(),
                i <= self.snakes@.len(),
                self.snakes@.len() == old(self).snakes@.len(),
                self.states == old(self).states,
                self.food == old(self).food,
                self.width == old(self).width,
                self.height == old(self).height,
                forall|j: int|
                    0 <= j < self.snakes@.len() ==> (#[trigger] self.snakes@[j]).body@ == old(self).snakes@[j].body@,
                forall|j: int| 0 <= j < i ==> (#[trigger] self.snakes@[j]).direction == directions@[j],
            decreases self.snakes@.len() - i,
        {
            self.snakes[i].direction = directions[i];
            i += 1;
        }
        assert(self.bodies() =~= old(self).bodies());
    }

    /// Sets the state of every player to `state`.
    pub fn set_states(&mut self, state: GameState)
        ensures
            final(self).states@ == Seq::new(old(self).states@.len(), |i: int| state),
            final(self).snakes == old(self).snakes,
            final(self).food == old(self).food,
            final(self).width == old(self).width,
            final(self).height == old(self).height,
            old(self).wf() && (state == GameState::Lost || forall|i: int|
                0 <= i < old(self).states@.len() ==> old(self).states@[i] != GameState::Lost)
                ==> final(self).wf(),
    {
        let mut i: usize = 0;
        while i < self.states.len()
            invariant
                i <= self.states@.len(),
                self.states@.len() == old(self).states@.len(),
                self.snakes == old(self).snakes,
                self.food == old(self).food,
                self.width == old(self).width,
                self.height == old(self).height,
                forall|j: int| 0 <= j < i ==> self.states@[j] == state,
                forall|j: int| i <= j < self.states@.len() ==> self.states@[j] == old(self).states@[j],
            decreases self.states@.len() - i,
        {
            self.states[i] = state;
            i += 1;
        }
        assert(self.states@ =~= Seq::new(old(self).states@.len(), |i: int| state));
    }

    /// The bodies of the snakes, as vectors.
    pub fn snakes_to_vec(&self) -> (r: Vec<Vec<Point>>)
        ensures
            rows(r@) == self.bodies(),
    {
        let mut r: Vec<Vec<Point>> = Vec::new();
        let mut i: usize = 0;
        while i < self.snakes.len()
            invariant
                i <= self.snakes@.len(),
                r@.len() == i,
                rows(r@) == self.bodies().subrange(0, i as int),
            decreases self.snakes@.len() - i,
        {
            assert(self.bodies()[i as int] == self.snakes@[i as int].body@);
            let c = copy_points(&self.snakes[i].body);
            let ghost r0 = r@;
            r.push(c);
            assert(r@ == r0.push(c));
            assert(rows(r@)[i as int] == c@);
            assert(forall|k: int| 0 <= k < i ==> rows(r@)[k] == rows(r0)[k]);
            i += 1;
            assert(rows(r@) =~= self.bodies().subrange(0, i as int));
        }
        assert(self.bodies().subrange(0, i as int) =~= self.bodies());
        r
    }
}

} // verus!
