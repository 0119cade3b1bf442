//! The game orchestration: board geometry, tick state machine, food
//! spawning, and score computation.

use vstd::prelude::*;
use vstd::arithmetic::div_mod::lemma_fundamental_div_mod_converse;
use vstd::set_lib::set_int_range;
use vstd::set_lib::lemma_int_range;
use vstd::set_lib::lemma_len_subset;
use std::collections::VecDeque;
use crate::snake::Coord;
use crate::snake::Direction;
use crate::snake::Food;
use crate::snake::FoodType;
use crate::snake::Snake;
use crate::snake::distinct;
use crate::snake::food_succ;
use crate::snake::occupies;
use crate::snake::lemma_distinct_body_no_tail_hit;

verus! {

/// Each eaten piece of fruit is worth this many points of displayed score.
pub const SCORE_MULTIPLIER: i64 = 50;

/// The fixed grid the game is played on. Coordinates `(x, y)` are live iff
/// `0 <= x < cols` and `0 <= y < rows`. The edge policy is bounded, not
/// wrapping: a head that leaves the grid is an edge collision.
#[derive(Clone, Copy, Debug, PartialEq, Eq, Structural)]
pub struct Board {
    pub rows: u16,
    pub cols: u16,
}

impl Board {
    /// A board must have at least one row and one column.
    pub open spec fn wf(self) -> bool {
        self.rows >= 1 && self.cols >= 1
    }

    /// True iff `c` is a live cell of this board.
    pub open spec fn in_bounds(self, c: Coord) -> bool {
        0 <= c.0 < self.cols && 0 <= c.1 < self.rows
    }

    /// Executable bounds check.
    pub fn contains(&self, c: Coord) -> (r: bool)
        ensures
            r == self.in_bounds(c),
    {
        0 <= c.0 && (c.0 as i64) < (self.cols as i64) && 0 <= c.1 && (c.1 as i64) < (self.rows as i64)
    }

    /// How many cells the board has.
    pub open spec fn cell_count(self) -> int {
        self.cols as int * self.rows as int
    }
}

/// The position of cell `c` in the fixed column-major enumeration of the
/// board: column `x` comes before column `x + 1`, and within a column the
/// cells are ordered by `y`.
pub open spec fn cell_key(board: Board, c: Coord) -> int {
    c.0 * board.rows + c.1
}

/// The `k`-th cell of the fixed enumeration: the inverse of `cell_key`.
pub open spec fn cell_of(board: Board, k: int) -> Coord {
    (((k / (board.rows as int)) as i32, (k % (board.rows as int)) as i32))
}

/// The free cells among the first `k` cells of the enumeration, in
/// enumeration order: those not occupied by any segment of `body`.
pub open spec fn free_prefix(board: Board, body: Seq<Coord>, k: nat) -> Seq<Coord>
    decreases k,
{
    if k == 0 {
        Seq::empty()
    } else {
        let prev = free_prefix(board, body, (k - 1) as nat);
        let c = cell_of(board, k - 1);
        if occupies(body, c) {
            prev
        } else {
            prev.push(c)
        }
    }
}

/// Every free cell of the board, in enumeration order. This is the set food
/// may be spawned on.
pub open spec fn free_cells_spec(board: Board, body: Seq<Coord>) -> Seq<Coord> {
    free_prefix(board, body, board.cell_count() as nat)
}

/// On a well-formed board, `cell_key` and `cell_of` are inverses on live
/// cells, and `cell_key` stays below the cell count.
proof fn lemma_cell_key_of(board: Board, c: Coord)
    requires
        board.wf(),
        board.in_bounds(c),
    ensures
        0 <= cell_key(board, c) < board.cell_count(),
        cell_of(board, cell_key(board, c)) == c,
{
    let r = board.rows as int;
    let cc = board.cols as int;
    assert(0 <= c.0 * r + c.1 && c.0 * r + c.1 < cc * r) by (nonlinear_arith)
        requires
            0 <= c.0 < cc,
            0 <= c.1 < r,
            r >= 1,
    ;
    lemma_fundamental_div_mod_converse(cell_key(board, c), r, c.0 as int, c.1 as int);
}

/// Every cell that the free-cell enumeration lists is a live cell that no
/// snake segment occupies.
proof fn lemma_free_prefix_sound(board: Board, body: Seq<Coord>, k: nat)
    requires
        board.wf(),
        k <= board.cell_count(),
    ensures
        forall|i: int| 0 <= i < free_prefix(board, body, k).len()
            ==> !occupies(body, #[trigger] free_prefix(board, body, k)[i])
                && board.in_bounds(free_prefix(board, body, k)[i]),
    decreases k,
{
    if k > 0 {
        lemma_free_prefix_sound(board, body, (k - 1) as nat);
        let prev = free_prefix(board, body, (k - 1) as nat);
        let c = cell_of(board, k - 1);
        let r = board.rows as int;
        let cc = board.cols as int;
        assert(0 <= (k - 1) / r && (k - 1) / r < cc && 0 <= (k - 1) % r < r) by (nonlinear_arith)
            requires
                r >= 1,
                cc >= 1,
                0 <= k - 1 < cc * r,
        ;
        assert(board.in_bounds(c));
        if !occupies(body, c) {
            let cur = free_prefix(board, body, k);
            assert(cur == prev.push(c));
            assert forall|i: int| 0 <= i < cur.len()
                implies !occupies(body, #[trigger] cur[i]) && board.in_bounds(cur[i]) by {
                if i < prev.len() {
                    assert(cur[i] == prev[i]);
                } else {
                    assert(cur[i] == c);
                }
            }
        }
    }
}

/// Every live cell that no snake segment occupies is listed by the
/// free-cell enumeration: the enumeration is complete.
proof fn lemma_free_prefix_complete(board: Board, body: Seq<Coord>, k: nat, c: Coord)
    requires
        board.wf(),
        board.in_bounds(c),
        !occupies(body, c),
        cell_key(board, c) < k,
    ensures
        free_prefix(board, body, k).contains(c),
    decreases k,
{
    lemma_cell_key_of(board, c);
    let prev = free_prefix(board, body, (k - 1) as nat);
    if cell_key(board, c) == k - 1 {
        assert(free_prefix(board, body, k) == prev.push(c));
        assert(free_prefix(board, body, k)[prev.len() as int] == c);
    } else {
        lemma_free_prefix_complete(board, body, (k - 1) as nat, c);
        let i = choose|i: int| 0 <= i < prev.len() && prev[i] == c;
        assert(free_prefix(board, body, k)[i] == c);
    }
}

/// If the board has no free cell at all, then every live cell is occupied
/// by some snake segment: the snake fills the whole grid.
pub proof fn lemma_board_full_when_no_free(board: Board, body: Seq<Coord>, c: Coord)
    requires
        board.wf(),
        free_cells_spec(board, body).len() == 0,
        board.in_bounds(c),
    ensures
        occupies(body, c),
{
    if !occupies(body, c) {
        lemma_cell_key_of(board, c);
        lemma_free_prefix_complete(board, body, board.cell_count() as nat, c);
    }
}

/// Collect the free cells of the board, in the fixed enumeration order.
/// Only the final random draw is separate; this computation is
/// deterministic and complete, so a caller that picks a known index gets a
/// known coordinate.
pub fn free_cells(board: &Board, body: &VecDeque<Coord>) -> (fc: Vec<Coord>)
    requires
        board.wf(),
    ensures
        fc@ == free_cells_spec(*board, body@),
        forall|i: int| 0 <= i < fc@.len()
            ==> !occupies(body@, #[trigger] fc@[i]) && board.in_bounds(fc@[i]),
{
    let rows = board.rows;
    let cols = board.cols;
    let mut fc: Vec<Coord> = Vec::new();
    let mut x: u16 = 0;
    while x < cols
        invariant
            board.wf(),
            rows == board.rows,
            cols == board.cols,
            0 <= x <= cols,
            fc@ == free_prefix(*board, body@, (x as nat) * (rows as nat)),
        decreases cols - x,
    {
        let mut y: u16 = 0;
        while y < rows
            invariant
                board.wf(),
                rows == board.rows,
                cols == board.cols,
                0 <= x < cols,
                0 <= y <= rows,
                fc@ == free_prefix(*board, body@, (x as nat) * (rows as nat) + y as nat),
            decreases rows - y,
        {
            let c: Coord = (x as i32, y as i32);
            proof {
                let k = (x as int) * (rows as int) + (y as int);
                lemma_fundamental_div_mod_converse(k, rows as int, x as int, y as int);
                assert(cell_of(*board, k) == c);
            }
            if !crate::snake::body_contains(body, c) {
                fc.push(c);
            }
            y = y + 1;
        }
        proof {
            assert((x as int) * (rows as int) + (rows as int) == (x as int + 1) * (rows as int))
                by (nonlinear_arith);
        }
        x = x + 1;
    }
    proof {
        assert((cols as int) * (rows as int) == board.cell_count());
        lemma_free_prefix_sound(*board, body@, board.cell_count() as nat);
    }
    fc
}

/// True iff every segment of `body` is a live cell of `board`.
pub open spec fn body_in_bounds(board: Board, body: Seq<Coord>) -> bool {
    forall|i: int| 0 <= i < body.len() ==> board.in_bounds(#[trigger] body[i])
}

/// A snake whose segments are pairwise distinct live cells cannot be longer
/// than the board has cells.
pub proof fn lemma_body_len_bounded(board: Board, body: Seq<Coord>)
    requires
        board.wf(),
        distinct(body),
        body_in_bounds(board, body),
    ensures
        body.len() <= board.cell_count(),
{
    broadcast use vstd::set::group_set_axioms;

    let keys = body.map(|i: int, c: Coord| cell_key(board, c));
    assert forall|i: int, j: int|
        0 <= i < keys.len() && 0 <= j < keys.len() && i != j implies keys[i] != keys[j] by {
        lemma_cell_key_of(board, body[i]);
        lemma_cell_key_of(board, body[j]);
    }
    assert(keys.no_duplicates());
    keys.unique_seq_to_set();
    let range = set_int_range(0, board.cell_count());
    lemma_int_range(0, board.cell_count());
    assert forall|e: int| keys.to_set().contains(e) implies range.contains(e) by {
        let i = choose|i: int| 0 <= i < keys.len() && keys[i] == e;
        lemma_cell_key_of(board, body[i]);
    }
    lemma_len_subset(keys.to_set(), range);
}

/// The body of a freshly started snake of length `n`: a straight horizontal
/// run along row 0 with its head at `(n - 1, 0)`, ordered head to tail.
pub open spec fn initial_body(n: nat) -> Seq<Coord> {
    Seq::new(n, |k: int| (((n - 1 - k) as i32, 0i32)))
}

/// Draw an index below `n`.
///
/// Relies on `rand::random_range`: for the range `0..n` it returns a value
/// uniformly distributed in `[0, n)`, and panics only if the range is empty,
/// which the precondition rules out.
#[verifier::external_body]
fn random_index(n: usize) -> (r: usize)
    requires
        0 < n,
    ensures
        r < n,
{
    rand::random_range(0..n)
}

/// The phase of the game's state machine.
#[derive(Clone, Copy, Debug, PartialEq, Eq, Structural)]
pub enum GameState {
    Playing,
    Paused,
    GameOver,
}

/// The whole game: board geometry, the snake, the current food item, tick
/// timing, and the state machine.
///
/// Time is measured in integer ticks of the caller's choosing (for example
/// milliseconds): `time` accumulates the deltas handed to `apply_tick`, and
/// one simulation step runs each time it reaches `update_freq`.
pub struct Game {
    pub board: Board,
    pub snake: Snake,
    pub food: Food,
    pub update_freq: u64,
    pub time: u64,
    pub state: GameState,
    pub initial_length: u16,
    pub board_full: bool,
}

impl Game {
    /// The structural well-formedness of board, configuration and snake,
    /// independent of where the food sits.
    pub open spec fn core_wf(self) -> bool {
        &&& self.board.wf()
        &&& 1 <= self.initial_length
        &&& self.initial_length as int <= self.board.cols as int
        &&& self.snake.p@.len() >= self.initial_length as int
        &&& distinct(self.snake.p@)
        &&& body_in_bounds(self.board, self.snake.p@)
    }

    /// The game invariant: a well-formed snake, and a food item on a live
    /// cell that no snake segment occupies — unless the snake has filled the
    /// whole grid, which is a terminal state.
    pub open spec fn wf(self) -> bool {
        &&& self.core_wf()
        &&& self.board.in_bounds(self.food.p)
        &&& self.board_full ==> self.state == GameState::GameOver
        &&& !self.board_full ==> !occupies(self.snake.p@, self.food.p)
    }

    /// The displayed score: fruit eaten so far (growth beyond the initial
    /// length), multiplied by the per-fruit value.
    pub open spec fn score_spec(self) -> int {
        (self.snake.p@.len() - self.initial_length as int) * (SCORE_MULTIPLIER as int)
    }

    /// Compute the displayed score. It is never negative: the snake only
    /// grows.
    pub fn score(&self) -> (s: i64)
        requires
            self.wf(),
        ensures
            s == self.score_spec(),
            s >= 0,
    {
        proof {
            lemma_body_len_bounded(self.board, self.snake.p@);
            assert(self.board.cell_count() < 0x1_0000_0000int) by (nonlinear_arith)
                requires
                    self.board.cols <= 0xffffu16 && self.board.rows <= 0xffffu16,
            ;
        }
        let len = self.snake.p.len();
        ((len as i64) - (self.initial_length as i64)) * SCORE_MULTIPLIER
    }

    /// The flavor that follows the current food's flavor in the fixed cycle;
    /// each spawn assigns it to the next food item.
    pub fn generate_random_food(&self) -> (f: FoodType)
        ensures
            f == food_succ(self.food.f),
    {
        match self.food.f {
            FoodType::Apple => FoodType::Banana,
            FoodType::Banana => FoodType::Grape,
            FoodType::Grape => FoodType::Blueberry,
            FoodType::Blueberry => FoodType::Orange,
            FoodType::Orange => FoodType::Apple,
        }
    }

    /// True iff the snake's head currently sits on the food.
    pub fn collide_with_food(&self) -> (r: bool)
        requires
            self.snake.p@.len() >= 1,
        ensures
            r == (self.snake.p@[0] == self.food.p),
    {
        self.snake.collide_with_food(&self.food)
    }

    /// End the game: the snake stays as it is, only the phase changes.
    pub fn game_over(&mut self)
        ensures
            *final(self) == (Game { state: GameState::GameOver, ..*old(self) }),
    {
        self.state = GameState::GameOver;
    }

    /// Place the food on the free cell at position `idx` (modulo the number
    /// of free cells) of the deterministic free-cell enumeration, and
    /// advance the flavor cycle. If no cell is free, the snake has filled
    /// the grid: the game ends instead, and no food is placed.
    ///
    /// This is the deterministic core of spawning; `spawn_food` draws `idx`
    /// at random.
    pub fn spawn_food_at(&mut self, idx: usize)
        requires
            old(self).core_wf(),
        ensures
            final(self).snake == old(self).snake,
            final(self).board == old(self).board,
            final(self).update_freq == old(self).update_freq,
            final(self).time == old(self).time,
            final(self).initial_length == old(self).initial_length,
            final(self).food.f == food_succ(old(self).food.f),
            ({
                let free = free_cells_spec(old(self).board, old(self).snake.p@);
                free.len() > 0 ==> {
                    &&& final(self).state == old(self).state
                    &&& final(self).board_full == old(self).board_full
                    &&& final(self).food.p == free[idx as int % free.len() as int]
                    &&& !occupies(old(self).snake.p@, final(self).food.p)
                    &&& old(self).board.in_bounds(final(self).food.p)
                }
            }),
            ({
                let free = free_cells_spec(old(self).board, old(self).snake.p@);
                free.len() == 0 ==> {
                    &&& final(self).state == GameState::GameOver
                    &&& final(self).board_full
                    &&& final(self).food.p == old(self).food.p
                }
            }),
    {
        let free = free_cells(&self.board, &self.snake.p);
        if free.len() > 0 {
            let j = idx % free.len();
            self.food.p = free[j];
        } else {
            self.state = GameState::GameOver;
            self.board_full = true;
        }
        self.food.f = self.generate_random_food();
    }

    /// Spawn a new food item on a uniformly random free cell and advance the
    /// flavor cycle; if the snake has filled the grid, end the game instead.
    /// The food never lands on a snake segment.
    pub fn spawn_food(&mut self)
        requires
            old(self).core_wf(),
        ensures
            final(self).snake == old(self).snake,
            final(self).board == old(self).board,
            final(self).update_freq == old(self).update_freq,
            final(self).time == old(self).time,
            final(self).initial_length == old(self).initial_length,
            final(self).food.f == food_succ(old(self).food.f),
            ({
                let free = free_cells_spec(old(self).board, old(self).snake.p@);
                free.len() > 0 ==> {
                    &&& final(self).state == old(self).state
                    &&& final(self).board_full == old(self).board_full
                    &&& free.contains(final(self).food.p)
                    &&& !occupies(old(self).snake.p@, final(self).food.p)
                    &&& old(self).board.in_bounds(final(self).food.p)
                }
            }),
            ({
                let free = free_cells_spec(old(self).board, old(self).snake.p@);
                free.len() == 0 ==> {
                    &&& final(self).state == GameState::GameOver
                    &&& final(self).board_full
                    &&& final(self).food.p == old(self).food.p
                }
            }),
    {
        let free = free_cells(&self.board, &self.snake.p);
        let idx = if free.len() > 0 {
            random_index(free.len())
        } else {
            0
        };
        proof {
            let frees = free_cells_spec(self.board, self.snake.p@);
            if frees.len() > 0 {
                assert(0 <= idx as int % (frees.len() as int) < frees.len() as int);
            }
        }
        self.spawn_food_at(idx);
    }

    /// Put the game back in its starting configuration: a straight snake of
    /// the configured initial length along row 0 with its head at the right
    /// end, idle heading, timer cleared, a fresh food spawn, and play
    /// resumed.
    fn reset(&mut self)
        requires
            old(self).board.wf(),
            1 <= old(self).initial_length,
            old(self).initial_length as int <= old(self).board.cols as int,
            old(self).board.in_bounds(old(self).food.p),
        ensures
            final(self).wf(),
            final(self).board == old(self).board,
            final(self).update_freq == old(self).update_freq,
            final(self).initial_length == old(self).initial_length,
            final(self).snake.p@ == initial_body(old(self).initial_length as nat),
            final(self).snake.d == Direction::Idle,
            final(self).time == 0,
            final(self).food.f == food_succ(old(self).food.f),
            final(self).score_spec() == 0,
            final(self).board_full == (free_cells_spec(
                old(self).board,
                initial_body(old(self).initial_length as nat),
            ).len() == 0),
            !final(self).board_full ==> final(self).state == GameState::Playing,
            final(self).board_full ==> final(self).state == GameState::GameOver,
    {
        let n = self.initial_length;
        let ghost board = self.board;
        let mut body: VecDeque<Coord> = VecDeque::new();
        let mut i: u16 = 0;
        while i < n
            invariant
                0 <= i <= n,
                body@ == initial_body(i as nat),
            decreases n - i,
        {
            body.push_front((i as i32, 0));
            proof {
                assert(body@ =~= initial_body((i + 1) as nat));
            }
            i = i + 1;
        }
        proof {
            let ib = initial_body(n as nat);
            assert forall|a: int, b: int| 0 <= a < b < ib.len() implies ib[a] != ib[b] by {
                assert(ib[a].0 == n - 1 - a && ib[b].0 == n - 1 - b);
            }
            assert(distinct(ib));
            assert forall|a: int| 0 <= a < ib.len() implies board.in_bounds(#[trigger] ib[a]) by {
                assert(ib[a] == (((n - 1 - a) as i32, 0i32)));
            }
        }
        self.snake = Snake { p: body, d: Direction::Idle };
        self.time = 0;
        self.board_full = false;
        self.state = GameState::Playing;
        self.spawn_food();
    }

    /// Start a game on `board` with a straight snake of `initial_length`
    /// cells along row 0, an idle heading, one spawned food item, and a
    /// simulation step every `update_freq` time units.
    pub fn new(board: Board, initial_length: u16, update_freq: u64) -> (g: Game)
        requires
            board.wf(),
            1 <= initial_length,
            initial_length as int <= board.cols as int,
        ensures
            g.wf(),
            g.board == board,
            g.initial_length == initial_length,
            g.update_freq == update_freq,
            g.snake.p@ == initial_body(initial_length as nat),
            g.snake.d == Direction::Idle,
            g.time == 0,
            g.score_spec() == 0,
            !crate::snake::tail_hit(g.snake.p@),
            g.food.f == food_succ(FoodType::Apple),
            g.board_full == (free_cells_spec(board, initial_body(initial_length as nat)).len()
                == 0),
            !g.board_full ==> g.state == GameState::Playing,
            g.board_full ==> g.state == GameState::GameOver,
    {
        let mut g = Game {
            board,
            snake: Snake::new(),
            food: Food::new(),
            update_freq,
            time: 0,
            state: GameState::Playing,
            initial_length,
            board_full: false,
        };
        g.reset();
        proof {
            lemma_distinct_body_no_tail_hit(g.snake.p@);
        }
        g
    }

    /// Toggle between play and pause. Pausing is only reachable from play;
    /// a finished game stays finished.
    pub fn toggle_pause(&mut self)
        ensures
            old(self).state == GameState::Playing ==> *final(self) == (Game {
                state: GameState::Paused,
                ..*old(self)
            }),
            old(self).state == GameState::Paused ==> *final(self) == (Game {
                state: GameState::Playing,
                ..*old(self)
            }),
            old(self).state == GameState::GameOver ==> *final(self) == *old(self),
    {
        match self.state {
            GameState::Playing => {
                self.state = GameState::Paused;
            },
            GameState::Paused => {
                self.state = GameState::Playing;
            },
            GameState::GameOver => {},
        }
    }

    /// Feed a directional command to the snake. A request for the exact
    /// opposite of the current heading is ignored; anything else becomes the
    /// new heading. Nothing but the heading changes.
    pub fn apply_direction(&mut self, d: Direction)
        ensures
            *final(self) == (Game { snake: final(self).snake, ..*old(self) }),
            final(self).snake.p == old(self).snake.p,
            crate::snake::opposite(old(self).snake.d, d) ==> final(self).snake.d == old(
                self,
            ).snake.d,
            !crate::snake::opposite(old(self).snake.d, d) ==> final(self).snake.d == d,
            old(self).wf() ==> final(self).wf(),
    {
        self.snake.set_direction(d);
    }

    /// The cell the head would move into on the next simulation step.
    pub open spec fn candidate_head(self) -> Coord {
        crate::snake::step(self.snake.p@[0], self.snake.d)
    }

    /// True iff the next simulation step is fatal: the candidate head cell
    /// lies on a non-head segment of the body, or outside the grid.
    pub open spec fn fatal_move(self) -> bool {
        ||| crate::snake::hits_tail_at(self.snake.p@, self.candidate_head())
        ||| !self.board.in_bounds(self.candidate_head())
    }

    /// Advance the game by `dt` time units.
    ///
    /// While paused nothing happens. A finished game is reset to the
    /// starting configuration on its next tick. Otherwise `dt` accumulates,
    /// and once the accumulated time reaches `update_freq` one simulation
    /// step runs: the candidate head cell is computed from the heading; a
    /// fatal candidate ends the game; an idle heading leaves the snake in
    /// place; otherwise the head advances, the snake growing by one segment
    /// exactly when the new head lands on the food (which then respawns),
    /// and keeping its length otherwise.
    pub fn apply_tick(&mut self, dt: u64)
        requires
            old(self).wf(),
        ensures
            final(self).wf(),
            final(self).board == old(self).board,
            final(self).update_freq == old(self).update_freq,
            final(self).initial_length == old(self).initial_length,
            old(self).state == GameState::Paused ==> *final(self) == *old(self),
            old(self).state == GameState::GameOver ==> {
                &&& final(self).snake.p@ == initial_body(old(self).initial_length as nat)
                &&& final(self).snake.d == Direction::Idle
                &&& final(self).time == 0
                &&& final(self).score_spec() == 0
                &&& final(self).food.f == food_succ(old(self).food.f)
                &&& final(self).board_full == (free_cells_spec(
                    old(self).board,
                    initial_body(old(self).initial_length as nat),
                ).len() == 0)
                &&& (!final(self).board_full ==> final(self).state == GameState::Playing)
                &&& (final(self).board_full ==> final(self).state == GameState::GameOver)
            },
            old(self).state == GameState::Playing && old(self).time.saturating_add(dt) < old(
                self,
            ).update_freq ==> *final(self) == (Game {
                time: old(self).time.saturating_add(dt),
                ..*old(self)
            }),
            ({
                let cand = old(self).candidate_head();
                let body = old(self).snake.p@;
                old(self).state == GameState::Playing && old(self).time.saturating_add(dt) >= old(
                    self,
                ).update_freq ==> {
                    &&& final(self).time == 0
                    &&& (old(self).fatal_move() ==> *final(self) == (Game {
                        time: 0u64,
                        state: GameState::GameOver,
                        ..*old(self)
                    }))
                    &&& (!old(self).fatal_move() && old(self).snake.d == Direction::Idle
                        ==> *final(self) == (Game { time: 0u64, ..*old(self) }))
                    &&& (!old(self).fatal_move() && old(self).snake.d != Direction::Idle && cand
                        != old(self).food.p ==> {
                        &&& final(self).snake.p@ == seq![cand] + body.drop_last()
                        &&& final(self).snake.p@.len() == body.len()
                        &&& final(self).snake.d == old(self).snake.d
                        &&& final(self).food == old(self).food
                        &&& final(self).state == GameState::Playing
                        &&& final(self).score_spec() == old(self).score_spec()
                    })
                    &&& (!old(self).fatal_move() && old(self).snake.d != Direction::Idle && cand
                        == old(self).food.p ==> {
                        let grown = seq![cand] + body;
                        let free = free_cells_spec(old(self).board, grown);
                        &&& final(self).snake.p@ == grown
                        &&& final(self).snake.p@.len() == body.len() + 1
                        &&& final(self).snake.d == old(self).snake.d
                        &&& final(self).food.f == food_succ(old(self).food.f)
                        &&& final(self).score_spec() == old(self).score_spec() + (
                        SCORE_MULTIPLIER as int)
                        &&& (free.len() > 0 ==> {
                            &&& final(self).state == GameState::Playing
                            &&& !final(self).board_full
                            &&& free.contains(final(self).food.p)
                            &&& !occupies(grown, final(self).food.p)
                        })
                        &&& (free.len() == 0 ==> {
                            &&& final(self).state == GameState::GameOver
                            &&& final(self).board_full
                        })
                    })
                }
            }),
            old(self).state == GameState::Playing ==> final(self).score_spec() >= old(
                self,
            ).score_spec(),
    {
        match self.state {
            GameState::Paused => {
                return ;
            },
            GameState::GameOver => {
                self.reset();
                return ;
            },
            GameState::Playing => {},
        }
        let acc = self.time.saturating_add(dt);
        if acc < self.update_freq {
            self.time = acc;
            return ;
        }
        self.time = 0;
        proof {
            assert(self.board.in_bounds(self.snake.p@[0]));
        }
        let head = self.snake.p[0];
        let cand = crate::snake::advance_head(head, self.snake.d);
        let on_tail = crate::snake::tail_hits(&self.snake.p, cand);
        let off_board = !self.board.contains(cand);
        if on_tail || off_board {
            self.game_over();
            return ;
        }
        match self.snake.d {
            Direction::Idle => {
                return ;
            },
            _ => {},
        }
        proof {
            // A real move leaves the old head cell: exactly one coordinate
            // changes by one.
            assert(cand != self.snake.p@[0]);
        }
        let ghost old_body = self.snake.p@;
        let ghost g_food = self.food.p;
        self.snake.p.push_front(cand);
        let ate = cand.0 == self.food.p.0 && cand.1 == self.food.p.1;
        if !ate {
            let _tail = self.snake.p.pop_back();
            proof {
                let moved = self.snake.p@;
                assert(moved =~= seq![cand] + old_body.drop_last());
                assert forall|a: int, b: int| 0 <= a < b < moved.len() implies moved[a]
                    != moved[b] by {
                    if a == 0 {
                        assert(moved[b] == old_body[b - 1]);
                    } else {
                        assert(moved[a] == old_body[a - 1] && moved[b] == old_body[b - 1]);
                    }
                }
                assert forall|a: int| 0 <= a < moved.len() implies self.board.in_bounds(
                    #[trigger] moved[a],
                ) by {
                    if a > 0 {
                        assert(moved[a] == old_body[a - 1]);
                    }
                }
                assert(!occupies(moved, self.food.p)) by {
                    if occupies(moved, self.food.p) {
                        let i = choose|i: int|
                            0 <= i < moved.len() && #[trigger] moved[i] == self.food.p;
                        if i > 0 {
                            assert(old_body[i - 1] == self.food.p);
                            assert(occupies(old_body, self.food.p));
                        }
                    }
                }
            }
        } else {
            proof {
                let grown = self.snake.p@;
                assert(grown == seq![cand] + old_body);
                // The eaten food cell was free, so the new head is distinct
                // from every old segment.
                assert(!occupies(old_body, g_food));
                assert forall|a: int, b: int| 0 <= a < b < grown.len() implies grown[a]
                    != grown[b] by {
                    if a == 0 {
                        assert(grown[b] == old_body[b - 1]);
                    } else {
                        assert(grown[a] == old_body[a - 1] && grown[b] == old_body[b - 1]);
                    }
                }
                assert forall|a: int| 0 <= a < grown.len() implies self.board.in_bounds(
                    #[trigger] grown[a],
                ) by {
                    if a > 0 {
                        assert(grown[a] == old_body[a - 1]);
                    }
                }
            }
            self.spawn_food();
        }
    }

    /// Restart after a pause or a finished game: a full reset to the
    /// starting configuration. Ignored while play is running.
    pub fn restart(&mut self)
        requires
            old(self).wf(),
        ensures
            final(self).wf(),
            old(self).state == GameState::Playing ==> *final(self) == *old(self),
            old(self).state != GameState::Playing ==> {
                &&& final(self).board == old(self).board
                &&& final(self).update_freq == old(self).update_freq
                &&& final(self).initial_length == old(self).initial_length
                &&& final(self).snake.p@ == initial_body(old(self).initial_length as nat)
                &&& final(self).snake.d == Direction::Idle
                &&& final(self).time == 0
                &&& final(self).score_spec() == 0
                &&& final(self).board_full == (free_cells_spec(
                    old(self).board,
                    initial_body(old(self).initial_length as nat),
                ).len() == 0)
                &&& (!final(self).board_full ==> final(self).state == GameState::Playing)
            },
    {
        match self.state {
            GameState::Playing => {},
            _ => {
                self.reset();
            },
        }
    }
}

} // verus!
