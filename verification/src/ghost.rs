//! The ghosts: where one stands, where it is heading, and how it wanders.
//!
//! A ghost moves at most `GHOST_SPEED` times a second, whatever the frame
//! rate: each time it is due it picks, at random, one of the neighbouring
//! cells that are open to it and steps there. It never looks for the player.

use crate::board::{blocked, cell, cells_of, in_bounds, Cell};
use crate::chance::random_index;
use crate::grid::Grid;
use crate::tile::TileType;
use std::time::{Duration, Instant};
use vstd::prelude::*;

verus! {

/// How many times a second a ghost may move.
pub const GHOST_SPEED: u64 = 2;

/// The least time, in milliseconds, between two moves of a ghost.
pub const MOVE_INTERVAL_MS: u64 = 1000 / GHOST_SPEED;

/// `std::time::Instant`, of which nothing is known here but that it can be
/// kept and asked how long ago it was.
#[verifier::external_type_specification]
#[verifier::external_body]
pub struct ExInstant(Instant);

/// `Instant::now` reads the clock. Nothing is claimed of what it returns.
pub assume_specification[ Instant::now ]() -> (now: Instant);

/// `Instant::elapsed` measures the time since the instant was taken. Nothing
/// is claimed of what it returns.
pub assume_specification[ Instant::elapsed ](then: &Instant) -> (waited: Duration);

/// `Duration::as_millis` counts the whole milliseconds in a duration. Nothing
/// is claimed of what it returns.
pub assume_specification[ Duration::as_millis ](waited: &Duration) -> (millis: u128);

/// What the rules know of a ghost: its cell and the step it took last.
pub struct GhostView {
    pub pos: Cell,
    pub direction: Cell,
}

/// The cell one step from `c` in direction `d`.
pub open spec fn shifted(c: Cell, d: Cell) -> Cell {
    (c.0 + d.0, c.1 + d.1)
}

/// The four steps a ghost may take, in the order in which it considers them:
/// right, left, down, up.
pub open spec fn directions() -> Seq<Cell> {
    seq![(1, 0), (-1, 0), (0, 1), (0, -1)]
}

/// The test "a step `d` from `c` ends on an open cell of `m`".
pub open spec fn leads_on(m: Seq<Seq<TileType>>, c: Cell) -> spec_fn(Cell) -> bool {
    |d: Cell| !blocked(m, shifted(c, d))
}

/// The steps open to a ghost at `c`, in the order of `directions`.
pub open spec fn open_directions(m: Seq<Seq<TileType>>, c: Cell) -> Seq<Cell> {
    directions().filter(leads_on(m, c))
}

/// What one update can make of a ghost: nothing, or one step in a direction
/// that was open to it, which it then remembers.
pub open spec fn may_become(m: Seq<Seq<TileType>>, before: GhostView, after: GhostView) -> bool {
    ||| after == before
    ||| open_directions(m, before.pos).contains(after.direction) && after.pos == shifted(
        before.pos,
        after.direction,
    )
}

/// Every step open to a ghost is one of the four: it leads one cell along a
/// row or a column, never aslant and never nowhere, and it ends on the board
/// and not on a wall.
pub proof fn lemma_open_step_leads_one_cell(m: Seq<Seq<TileType>>, c: Cell, d: Cell)
    requires
        open_directions(m, c).contains(d),
    ensures
        directions().contains(d),
        d == (1int, 0int) || d == (-1int, 0int) || d == (0int, 1int) || d == (0int, -1int),
        shifted(c, d) != c,
        in_bounds(m, shifted(c, d)),
        !blocked(m, shifted(c, d)),
{
    let open = open_directions(m, c);
    let k = choose|k: int| 0 <= k < open.len() && open[k] == d;
    directions().lemma_filter_pred(leads_on(m, c), k);
    directions().lemma_filter_contains_rev(leads_on(m, c), d);
}

/// A ghost that was on an open cell is on an open cell after its update: on
/// the board, and not on a wall.
pub proof fn lemma_ghost_keeps_to_open_cells(
    m: Seq<Seq<TileType>>,
    before: GhostView,
    after: GhostView,
)
    requires
        may_become(m, before, after),
    ensures
        !blocked(m, before.pos) ==> in_bounds(m, after.pos) && !blocked(m, after.pos),
{
    if after != before {
        let open = open_directions(m, before.pos);
        let k = choose|k: int| 0 <= k < open.len() && open[k] == after.direction;
        directions().lemma_filter_pred(leads_on(m, before.pos), k);
    }
}

/// However often a ghost is updated, it keeps to the open cells of the
/// board: if `path` holds the ghost as it was before the first update and
/// after each one, and it began on an open cell, every entry of `path` is on
/// an open cell.
pub proof fn lemma_ghost_never_leaves_open_cells(
    m: Seq<Seq<TileType>>,
    path: Seq<GhostView>,
    k: int,
)
    requires
        path.len() > 0,
        !blocked(m, path[0].pos),
        forall|i: int| 0 <= i < path.len() - 1 ==> may_become(m, #[trigger] path[i], path[i + 1]),
        0 <= k < path.len(),
    ensures
        in_bounds(m, path[k].pos),
        !blocked(m, path[k].pos),
    decreases k,
{
    if k > 0 {
        lemma_ghost_never_leaves_open_cells(m, path, k - 1);
        lemma_ghost_keeps_to_open_cells(m, path[k - 1], path[k]);
    }
}

/// A ghost with no open neighbour stays as it is.
pub proof fn lemma_enclosed_ghost_stays(
    m: Seq<Seq<TileType>>,
    before: GhostView,
    after: GhostView,
)
    requires
        may_become(m, before, after),
        open_directions(m, before.pos).len() == 0,
    ensures
        after == before,
{
}

/// A ghost of the game.
#[derive(Clone, Copy, Debug)]
pub struct GhostEntity {
    /// The cell the ghost stands on, as `(x, y)`.
    pub pos: (i32, i32),
    /// The step the ghost took last; rightwards before its first.
    pub direction: (i32, i32),
    /// When the ghost last came up for a move.
    pub last_move: Instant,
}

impl View for GhostEntity {
    type V = GhostView;

    open spec fn view(&self) -> GhostView {
        GhostView { pos: cell(self.pos), direction: cell(self.direction) }
    }
}

/// Whether a ghost that last came up for a move `elapsed_ms` milliseconds
/// ago is due again.
pub fn move_due(elapsed_ms: u128) -> (due: bool)
    ensures
        due == (elapsed_ms >= MOVE_INTERVAL_MS),
{
    elapsed_ms >= MOVE_INTERVAL_MS as u128
}

/// The `k`-th of the four steps.
fn direction(k: usize) -> (d: (i32, i32))
    requires
        k < 4,
    ensures
        directions().len() == 4,
        cell(d) == directions()[k as int],
{
    if k == 0 {
        (1, 0)
    } else if k == 1 {
        (-1, 0)
    } else if k == 2 {
        (0, 1)
    } else {
        (0, -1)
    }
}

/// Whether a step `d` from `pos` ends on an open cell of `walls`.
fn leads_on_open(walls: &Grid, pos: (i32, i32), d: (i32, i32)) -> (open: bool)
    requires
        walls.wf(),
    ensures
        open == leads_on(walls@, cell(pos))(cell(d)),
{
    match (pos.0.checked_add(d.0), pos.1.checked_add(d.1)) {
        (Some(x), Some(y)) => !walls.blocks((x, y)),
        _ => false,
    }
}

/// The steps open to a ghost at `pos`: those of the four that end on the
/// grid and not on a wall, in the order right, left, down, up.
pub fn available_directions(walls: &Grid, pos: (i32, i32)) -> (open: Vec<(i32, i32)>)
    requires
        walls.wf(),
    ensures
        cells_of(open@) == open_directions(walls@, cell(pos)),
{
    let mut open: Vec<(i32, i32)> = Vec::new();
    let mut k: usize = 0;
    proof {
        reveal(Seq::filter);
    }
    while k < 4
        invariant
            walls.wf(),
            k <= 4,
            directions().len() == 4,
            cells_of(open@) == directions().take(k as int).filter(leads_on(walls@, cell(pos))),
        decreases 4 - k,
    {
        let d = direction(k);
        proof {
            assert(directions().take(k + 1) =~= directions().take(k as int).push(cell(d)));
            directions().take(k as int).lemma_filter_push(cell(d), leads_on(walls@, cell(pos)));
        }
        if leads_on_open(walls, pos, d) {
            open.push(d);
        }
        k += 1;
    }
    assert(directions().take(4) =~= directions());
    open
}

impl GhostEntity {
    /// A ghost at column `x`, row `y`, heading right, that has just come up
    /// for a move.
    pub fn new(x: i32, y: i32) -> (spawned: GhostEntity)
        ensures
            spawned@ == (GhostView { pos: (x as int, y as int), direction: (1, 0) }),
    {
        GhostEntity { pos: (x, y), direction: (1, 0), last_move: Instant::now() }
    }

    /// Turns the ghost to `d` and moves it one step that way.
    pub fn step(&mut self, d: (i32, i32))
        requires
            i32::MIN <= old(self).pos.0 + d.0 <= i32::MAX,
            i32::MIN <= old(self).pos.1 + d.1 <= i32::MAX,
        ensures
            final(self)@ == (GhostView {
                pos: shifted(old(self)@.pos, cell(d)),
                direction: cell(d),
            }),
            final(self).last_move == old(self).last_move,
    {
        self.direction = d;
        self.pos = (self.pos.0 + d.0, self.pos.1 + d.1);
    }

    /// The turn of a ghost that last came up for a move `elapsed_ms`
    /// milliseconds ago, at the moment `now`.
    ///
    /// A ghost that is not yet due is left exactly as it is, clock and all.
    /// A due ghost with a step open to it draws one of its open steps and
    /// takes it; a due ghost that is walled in on all sides stays where it is
    /// and keeps its direction. The clock of a due ghost starts anew at
    /// `now`, whether it moved or not. The answer tells whether it moved.
    ///
    /// Which of the open steps is taken hangs on the draw; all else is fixed.
    pub fn turn(&mut self, walls: &Grid, elapsed_ms: u128, now: Instant) -> (moved: bool)
        requires
            walls.wf(),
        ensures
            moved == (elapsed_ms >= MOVE_INTERVAL_MS && open_directions(
                walls@,
                old(self)@.pos,
            ).len() > 0),
            !moved ==> final(self)@ == old(self)@,
            moved ==> open_directions(walls@, old(self)@.pos).contains(final(self)@.direction)
                && final(self)@.pos == shifted(old(self)@.pos, final(self)@.direction),
            final(self).last_move == if elapsed_ms >= MOVE_INTERVAL_MS {
                now
            } else {
                old(self).last_move
            },
    {
        if !move_due(elapsed_ms) {
            return false;
        }
        let open = available_directions(walls, self.pos);
        let moved = open.len() > 0;
        if moved {
            let choice = random_index(open.len());
            let d = open[choice];
            proof {
                assert(open_directions(walls@, cell(self.pos))[choice as int] == cell(d));
                directions().lemma_filter_pred(leads_on(walls@, cell(self.pos)), choice as int);
            }
            self.step(d);
        }
        self.last_move = now;
        moved
    }

    /// Gives the ghost its turn in a frame: reads the clock and lets the
    /// ghost have the `turn` that the reading calls for.
    ///
    /// What the clock says is not known here, nor which step is drawn, so the
    /// contract says what holds whatever they are: the ghost is as before, or
    /// one open step further and turned that way; and a ghost that stood on
    /// an open cell of the grid stands on one after. What happens for a given
    /// reading is stated by `turn`.
    pub fn update(&mut self, walls: &Grid)
        requires
            walls.wf(),
        ensures
            may_become(walls@, old(self)@, final(self)@),
            !blocked(walls@, old(self)@.pos) ==> !blocked(walls@, final(self)@.pos),
    {
        let elapsed_ms = self.last_move.elapsed().as_millis();
        let now = Instant::now();
        let _moved = self.turn(walls, elapsed_ms, now);
        proof {
            lemma_ghost_keeps_to_open_cells(walls@, old(self)@, self@);
        }
    }
}

} // verus!
