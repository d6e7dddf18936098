use vstd::prelude::*;

use crate::game::Point;

verus! {

/// A heading, supplied by a client once per turn.
#[derive(Clone, Copy, Debug, PartialEq, Eq, Structural)]
pub enum Direction {
    Up,
    Down,
    Left,
    Right,
}

/// One player's snake: its body (the head is the last segment) and its heading.
pub struct Snake {
    pub body: Vec<Point>,
    pub direction: Direction,
}

/// The cell next to `p` in direction `d`.
pub open spec fn next_cell(p: Point, d: Direction) -> Point {
    match d {
        Direction::Up => Point { x: p.x, y: (p.y - 1) as u16 },
        Direction::Down => Point { x: p.x, y: (p.y + 1) as u16 },
        Direction::Left => Point { x: (p.x - 1) as u16, y: p.y },
        Direction::Right => Point { x: (p.x + 1) as u16, y: p.y },
    }
}

/// A cell can be left in direction `d` without leaving the range of `u16`.
pub open spec fn can_step(p: Point, d: Direction) -> bool {
    match d {
        Direction::Up => p.y >= 1,
        Direction::Down => p.y < u16::MAX,
        Direction::Left => p.x >= 1,
        Direction::Right => p.x < u16::MAX,
    }
}

/// A body after one move: the tail segment is dropped and a new head is
/// appended one cell away from the old head, in direction `d`.
pub open spec fn moved(body: Seq<Point>, d: Direction) -> Seq<Point> {
    body.subrange(1, body.len() as int).push(next_cell(body.last(), d))
}

/// `p` is on the border of a `width` x `height` board: a coordinate equals 1
/// or equals the width (for x) or the height (for y).
pub open spec fn on_border(p: Point, width: int, height: int) -> bool {
    p.x == 1 || p.x == width || p.y == 1 || p.y == height
}

/// Some segment of `body` other than the head lies on the head's cell.
pub open spec fn bites_itself(body: Seq<Point>) -> bool {
    exists|k: int| 0 <= k < body.len() - 1 && body[k] == body.last()
}

/// The row on which player `id` out of `nb` starts.
pub open spec fn start_row(id: int, nb: int, height: int) -> int {
    height / (2 * nb) * (id + 1)
}

/// The body that player `id` out of `nb` starts with: three segments in a
/// row, tail first, ending one cell right of the middle of the width.
pub open spec fn initial_body(id: int, nb: int, width: int, height: int) -> Seq<Point> {
    seq![
        Point { x: (width / 2 - 1) as u16, y: start_row(id, nb, height) as u16 },
        Point { x: (width / 2) as u16, y: start_row(id, nb, height) as u16 },
        Point { x: (width / 2 + 1) as u16, y: start_row(id, nb, height) as u16 },
    ]
}

impl Snake {
    /// A snake never has fewer than three segments.
    pub open spec fn wf(&self) -> bool {
        self.body@.len() >= 3
    }

    /// The head segment.
    pub open spec fn head(&self) -> Point {
        self.body@.last()
    }

    /// The initial snake of player `id` out of `nb`: three segments in a row
    /// at the middle of the width, heading right, on a row that spreads the
    /// players over the height.
    pub fn init(id: usize, nb: usize, width: usize, height: usize) -> (r: Snake)
        requires
            id < nb,
            2 * nb <= usize::MAX,
            2 <= width,
            width / 2 + 1 <= u16::MAX,
            start_row(id as int, nb as int, height as int) <= u16::MAX,
        ensures
            r.wf(),
            r.direction == Direction::Right,
            r.body@ == initial_body(id as int, nb as int, width as int, height as int),
    {
        let step: usize = height / (2 * nb);
        assert(step * (id + 1) <= height) by (nonlinear_arith)
            requires
                step as int == height as int / (2 * nb as int),
                id < nb,
                0 < nb,
        {
            assert(step * (2 * nb) <= height);
            assert(step * (id + 1) <= step * (2 * nb));
        }
        let row: usize = step * (id + 1);
        let y = row as u16;
        let mid = (width / 2) as u16;
        let mut body: Vec<Point> = Vec::new();
        body.push(Point { x: mid - 1, y });
        body.push(Point { x: mid, y });
        body.push(Point { x: mid + 1, y });
        Snake { body, direction: Direction::Right }
    }

    /// Moves the snake by one cell: the tail is dropped and a new head is
    /// pushed one cell away from the old head in the current direction.
    pub fn _move(&mut self)
        requires
            old(self).wf(),
            can_step(old(self).head(), old(self).direction),
        ensures
            final(self).wf(),
            final(self).direction == old(self).direction,
            final(self).body@ == moved(old(self).body@, old(self).direction),
            final(self).body@.len() == old(self).body@.len(),
            final(self).head() == next_cell(old(self).head(), old(self).direction),
    {
        self.body.remove(0);
        let p = self.body[self.body.len() - 1];
        let point = match self.direction {
            Direction::Up => Point { x: p.x, y: p.y - 1 },
            Direction::Down => Point { x: p.x, y: p.y + 1 },
            Direction::Right => Point { x: p.x + 1, y: p.y },
            Direction::Left => Point { x: p.x - 1, y: p.y },
        };
        self.body.push(point);
        assert(self.body@ =~= moved(old(self).body@, old(self).direction));
    }

    /// Grows the snake by appending `food` as its new head.
    pub fn _grow(&mut self, food: Point)
        requires
            old(self).wf(),
        ensures
            final(self).wf(),
            final(self).direction == old(self).direction,
            final(self).body@ == old(self).body@.push(food),
    {
        self.body.push(food);
    }

    /// Whether some segment of the body lies on `point`.
    pub fn _do_overlap(&self, point: Point) -> (r: bool)
        ensures
            r == self.body@.contains(point),
    {
        let mut i: usize = 0;
        while i < self.body.len()
            invariant
                i <= self.body@.len(),
                forall|k: int| 0 <= k < i ==> self.body@[k] != point,
            decreases self.body@.len() - i,
        {
            if self.body[i].x == point.x && self.body[i].y == point.y {
                return true;
            }
            i += 1;
        }
        false
    }

    /// Whether the head lies on the border of a `width` x `height` board.
    pub fn _check_border_collisions(&self, width: usize, height: usize) -> (r: bool)
        requires
            self.wf(),
            width < 65536,
            height < 65536,
        ensures
            r == on_border(self.head(), width as int, height as int),
    {
        let p = self.body[self.body.len() - 1];
        if p.x == 1 || p.x == width as u16 {
            return true;
        }
        if p.y == 1 || p.y == height as u16 {
            return true;
        }
        false
    }

    /// Whether the head lies on another segment of the same snake.
    pub fn _check_self_collision(&self) -> (r: bool)
        requires
            self.wf(),
        ensures
            r == bites_itself(self.body@),
    {
        let last = self.body[self.body.len() - 1];
        let mut i: usize = 0;
        while i < self.body.len() - 1
            invariant
                self.wf(),
                i <= self.body@.len() - 1,
                last == self.body@.last(),
                forall|k: int| 0 <= k < i ==> self.body@[k] != last,
            decreases self.body@.len() - i,
        {
            if self.body[i].x == last.x && self.body[i].y == last.y {
                return true;
            }
            i += 1;
        }
        false
    }

    /// Whether the head lies on `point`.
    pub fn _check_food_collision(&self, point: Point) -> (r: bool)
        requires
            self.wf(),
        ensures
            r == (self.head() == point),
    {
        let p = self.body[self.body.len() - 1];
        p.x == point.x && p.y == point.y
    }
}

} // verus!
