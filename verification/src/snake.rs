//! The snake itself: its body, its heading, and its collision predicates.

use vstd::prelude::*;
use std::collections::VecDeque;
use crate::game::Board;

verus! {

/// A cell of the grid, as an `(x, y)` pair of signed coordinates.
///
/// A candidate head position may step outside the grid for one tick; the
/// signed type lets that position be represented so that the edge-collision
/// check can reject it.
pub type Coord = (i32, i32);

/// The snake's heading. `Idle` means "not yet moving": the state before the
/// player's first directional input.
#[derive(Clone, Copy, Debug, PartialEq, Eq, Structural)]
pub enum Direction {
    Up,
    Down,
    Left,
    Right,
    Idle,
}

/// True iff `a` and `b` are exact opposites. `Idle` has no opposite.
pub open spec fn opposite(a: Direction, b: Direction) -> bool {
    match (a, b) {
        (Direction::Up, Direction::Down) => true,
        (Direction::Down, Direction::Up) => true,
        (Direction::Left, Direction::Right) => true,
        (Direction::Right, Direction::Left) => true,
        _ => false,
    }
}

/// True iff some segment of `body` sits on cell `c`.
pub open spec fn occupies(body: Seq<Coord>, c: Coord) -> bool {
    exists|i: int| 0 <= i < body.len() && #[trigger] body[i] == c
}

/// True iff the segments of `body` are pairwise distinct.
pub open spec fn distinct(body: Seq<Coord>) -> bool {
    forall|i: int, j: int| 0 <= i < j < body.len() ==> #[trigger] body[i] != #[trigger] body[j]
}

/// True iff cell `c` equals some non-head segment of `body`: the cell a
/// moving head must not enter.
pub open spec fn hits_tail_at(body: Seq<Coord>, c: Coord) -> bool {
    exists|i: int| 1 <= i < body.len() && #[trigger] body[i] == c
}

/// True iff the head (front) cell of `body` reappears among the later
/// segments: the snake has run into its own tail.
pub open spec fn tail_hit(body: Seq<Coord>) -> bool {
    hits_tail_at(body, body[0])
}

/// The cell one step from `c` in direction `d`; `Idle` produces no offset.
pub open spec fn step(c: Coord, d: Direction) -> Coord {
    match d {
        Direction::Up => (c.0, (c.1 - 1) as i32),
        Direction::Down => (c.0, (c.1 + 1) as i32),
        Direction::Left => (((c.0 - 1) as i32, c.1)),
        Direction::Right => (((c.0 + 1) as i32, c.1)),
        Direction::Idle => c,
    }
}

/// The candidate new head coordinate: `c` offset by one cell in direction
/// `d`. Pure, so that movement can be tested in isolation.
pub fn advance_head(c: Coord, d: Direction) -> (r: Coord)
    requires
        i32::MIN < c.0 < i32::MAX,
        i32::MIN < c.1 < i32::MAX,
    ensures
        r == step(c, d),
{
    match d {
        Direction::Up => (c.0, c.1 - 1),
        Direction::Down => (c.0, c.1 + 1),
        Direction::Left => (c.0 - 1, c.1),
        Direction::Right => (c.0 + 1, c.1),
        Direction::Idle => c,
    }
}

/// Linear scan: does any segment of `body` sit on cell `c`?
pub fn body_contains(body: &VecDeque<Coord>, c: Coord) -> (r: bool)
    ensures
        r == occupies(body@, c),
{
    let mut i: usize = 0;
    while i < body.len()
        invariant
            0 <= i <= body@.len(),
            forall|j: int| 0 <= j < i ==> #[trigger] body@[j] != c,
        decreases body@.len() - i,
    {
        let q = body[i];
        if q.0 == c.0 && q.1 == c.1 {
            return true;
        }
        i = i + 1;
    }
    false
}

/// Linear scan over the non-head segments: would a head at cell `c` lie on
/// the snake's tail?
pub fn tail_hits(body: &VecDeque<Coord>, c: Coord) -> (r: bool)
    requires
        body@.len() >= 1,
    ensures
        r == hits_tail_at(body@, c),
{
    let mut i: usize = 1;
    while i < body.len()
        invariant
            1 <= i <= body@.len(),
            forall|j: int| 1 <= j < i ==> #[trigger] body@[j] != c,
        decreases body@.len() - i,
    {
        let q = body[i];
        if q.0 == c.0 && q.1 == c.1 {
            return true;
        }
        i = i + 1;
    }
    false
}

/// The player-controlled snake: ordered body segments with the head at the
/// front, and the current heading.
pub struct Snake {
    pub p: VecDeque<Coord>,
    pub d: Direction,
}

/// The single food item currently on the grid.
pub struct Food {
    pub p: Coord,
    pub f: FoodType,
}

/// The food's flavor tag, used by a renderer purely for color selection.
/// It advances one step along a fixed five-element cycle on every spawn.
#[derive(Clone, Copy, Debug, PartialEq, Eq, Structural)]
pub enum FoodType {
    Apple,
    Grape,
    Blueberry,
    Orange,
    Banana,
}

/// The fixed flavor cycle: Apple, Banana, Grape, Blueberry, Orange, and
/// back to Apple.
pub open spec fn food_succ(f: FoodType) -> FoodType {
    match f {
        FoodType::Apple => FoodType::Banana,
        FoodType::Banana => FoodType::Grape,
        FoodType::Grape => FoodType::Blueberry,
        FoodType::Blueberry => FoodType::Orange,
        FoodType::Orange => FoodType::Apple,
    }
}

/// Advancing the flavor five times returns to the start, and no earlier
/// step does: the cycle has period exactly five.
pub proof fn lemma_food_cycle_period_five(f: FoodType)
    ensures
        food_succ(food_succ(food_succ(food_succ(food_succ(f))))) == f,
        food_succ(f) != f,
        food_succ(food_succ(f)) != f,
        food_succ(food_succ(food_succ(f))) != f,
        food_succ(food_succ(food_succ(food_succ(f)))) != f,
{
}

impl Food {
    /// A placeholder food at the origin; the game replaces it by a real
    /// spawn before play begins.
    pub fn new() -> (food: Food)
        ensures
            food.p == (0i32, 0i32),
            food.f == FoodType::Apple,
    {
        Food { p: (0, 0), f: FoodType::Apple }
    }
}

impl Snake {
    /// An empty, idle snake; the game fills in the initial body segments.
    pub fn new() -> (s: Snake)
        ensures
            s.p@ == Seq::<Coord>::empty(),
            s.d == Direction::Idle,
    {
        Snake { p: VecDeque::new(), d: Direction::Idle }
    }

    /// True iff the head coordinate equals any non-head segment's coordinate.
    pub fn collide_with_tail(&self) -> (r: bool)
        requires
            self.p@.len() >= 1,
        ensures
            r == tail_hit(self.p@),
    {
        let h = self.p[0];
        tail_hits(&self.p, h)
    }

    /// True iff the head coordinate equals the food's coordinate.
    pub fn collide_with_food(&self, food: &Food) -> (r: bool)
        requires
            self.p@.len() >= 1,
        ensures
            r == (self.p@[0] == food.p),
    {
        let h = self.p[0];
        h.0 == food.p.0 && h.1 == food.p.1
    }

    /// Turn the snake. A request for the exact opposite of the current
    /// heading is rejected (no-op), so the snake can never reverse into its
    /// own neck; every other request (including the current heading itself)
    /// is accepted.
    pub fn set_direction(&mut self, d: Direction)
        ensures
            final(self).p == old(self).p,
            opposite(old(self).d, d) ==> final(self).d == old(self).d,
            !opposite(old(self).d, d) ==> final(self).d == d,
    {
        match (self.d, d) {
            (Direction::Up, Direction::Down)
            | (Direction::Down, Direction::Up)
            | (Direction::Left, Direction::Right)
            | (Direction::Right, Direction::Left) => {},
            _ => {
                self.d = d;
            },
        }
    }

    /// True iff the head coordinate lies outside `[0, cols) x [0, rows)`.
    pub fn collide_with_edge(&self, board: &Board) -> (r: bool)
        requires
            self.p@.len() >= 1,
        ensures
            r == !board.in_bounds(self.p@[0]),
    {
        let h = self.p[0];
        !board.contains(h)
    }
}

/// A snake whose body segments are pairwise distinct is not colliding with
/// its own tail; in particular, a freshly constructed snake (whose initial
/// straight body has distinct cells) reports no self-collision.
pub proof fn lemma_distinct_body_no_tail_hit(body: Seq<Coord>)
    requires
        body.len() >= 1,
        distinct(body),
    ensures
        !tail_hit(body),
{
}

} // verus!
