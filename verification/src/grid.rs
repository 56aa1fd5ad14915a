//! The executable grid: the tiles of one session, held row by row.

use crate::board::{
    blocked, cells_holding, cells_holding_upto, cells_of, in_bounds, is_board,
    lemma_cells_holding_ends, lemma_cells_holding_step, lemma_with_tile, on_wall_line, side,
    spawn_clear, tile_at, walls_on_lines, with_tile, MAX_GRID_SIZE, WALL_STRIDE,
};
use crate::chance::random_ratio;
use crate::tile::TileType;
use vstd::prelude::*;

verus! {

/// A wall is raised on a wall line once in this many draws.
pub const WALL_ONE_IN: u32 = 3;

/// A dot is laid on a cell that got no wall once in this many draws.
pub const DOT_ONE_IN: u32 = 2;

/// The board that a vector of rows stands for.
pub open spec fn rows_of(tiles: Vec<Vec<TileType>>) -> Seq<Seq<TileType>> {
    Seq::new(tiles@.len(), |y: int| tiles@[y]@)
}

/// The tile that two draws give a cell: a wall if the cell is on a wall line
/// and the first draw hit, else a dot if the second draw hit, else nothing.
pub open spec fn drawn_tile(lined: bool, wall_draw: bool, dot_draw: bool) -> TileType {
    if lined && wall_draw {
        TileType::Wall
    } else if dot_draw {
        TileType::Dot
    } else {
        TileType::Empty
    }
}

/// Whether walls may stand at column `x`, row `y`.
pub fn on_wall_line_at(x: usize, y: usize) -> (lined: bool)
    ensures
        lined == on_wall_line((x as int, y as int)),
{
    x % (WALL_STRIDE as usize) == 0 || y % (WALL_STRIDE as usize) == 0
}

/// Decides a cell's tile from the two draws made for it.
pub fn pick_tile(lined: bool, wall_draw: bool, dot_draw: bool) -> (tile: TileType)
    ensures
        tile == drawn_tile(lined, wall_draw, dot_draw),
{
    if lined && wall_draw {
        TileType::Wall
    } else if dot_draw {
        TileType::Dot
    } else {
        TileType::Empty
    }
}

/// A row of `n` empty cells.
fn blank_row(n: usize) -> (row: Vec<TileType>)
    ensures
        row@ == Seq::new(n as nat, |x: int| TileType::Empty),
{
    let mut row: Vec<TileType> = Vec::new();
    let mut x: usize = 0;
    while x < n
        invariant
            x <= n,
            row@ == Seq::new(x as nat, |x: int| TileType::Empty),
        decreases n - x,
    {
        row.push(TileType::Empty);
        x += 1;
    }
    row
}

/// `n` rows of `n` empty cells.
fn blank(n: usize) -> (tiles: Vec<Vec<TileType>>)
    ensures
        rows_of(tiles).len() == n,
        forall|y: int| 0 <= y < n ==> (#[trigger] rows_of(tiles)[y]).len() == n,
        forall|x: int, y: int|
            0 <= x < n && 0 <= y < n ==> #[trigger] rows_of(tiles)[y][x] == TileType::Empty,
{
    let mut tiles: Vec<Vec<TileType>> = Vec::new();
    let mut y: usize = 0;
    while y < n
        invariant
            y <= n,
            tiles@.len() == y,
            forall|j: int| 0 <= j < y ==> (#[trigger] tiles@[j])@ == Seq::new(
                n as nat,
                |x: int| TileType::Empty,
            ),
        decreases n - y,
    {
        tiles.push(blank_row(n));
        y += 1;
    }
    tiles
}

/// Writes `t` at column `x`, row `y`.
fn put(tiles: &mut Vec<Vec<TileType>>, x: usize, y: usize, t: TileType)
    requires
        is_board(rows_of(*old(tiles))),
        in_bounds(rows_of(*old(tiles)), (x as int, y as int)),
    ensures
        rows_of(*final(tiles)) == with_tile(rows_of(*old(tiles)), (x as int, y as int), t),
        is_board(rows_of(*final(tiles))),
        side(rows_of(*final(tiles))) == side(rows_of(*old(tiles))),
{
    proof {
        lemma_with_tile(rows_of(*tiles), (x as int, y as int), t);
    }
    tiles[y][x] = t;
}

/// The tiles of one session.
#[derive(Debug)]
pub struct Grid {
    tiles: Vec<Vec<TileType>>,
}

impl View for Grid {
    type V = Seq<Seq<TileType>>;

    closed spec fn view(&self) -> Seq<Seq<TileType>> {
        rows_of(self.tiles)
    }
}

impl Grid {
    /// The grid is a board.
    pub open spec fn wf(&self) -> bool {
        is_board(self@)
    }

    /// Takes `rows` as the grid, if they form a board: at least 3 and at most
    /// `MAX_GRID_SIZE` rows, each as long as there are rows.
    pub fn from_rows(rows: Vec<Vec<TileType>>) -> (grid: Option<Grid>)
        ensures
            match grid {
                Some(g) => g.wf() && g@ == rows_of(rows),
                None => !is_board(rows_of(rows)),
            },
    {
        let n = rows.len();
        if n < 3 || n > MAX_GRID_SIZE as usize {
            return None;
        }
        let mut y: usize = 0;
        while y < n
            invariant
                y <= n,
                n == rows@.len(),
                forall|j: int| 0 <= j < y ==> (#[trigger] rows_of(rows)[j]).len() == n,
            decreases n - y,
        {
            assert(rows_of(rows)[y as int] == rows@[y as int]@);
            if rows[y].len() != n {
                return None;
            }
            y += 1;
        }
        Some(Grid { tiles: rows })
    }

    /// The side of the grid.
    pub fn size(&self) -> (n: i32)
        requires
            self.wf(),
        ensures
            n == side(self@),
            3 <= n <= MAX_GRID_SIZE,
    {
        self.tiles.len() as i32
    }

    /// The tile at column `x`, row `y`, if there is such a cell.
    pub fn get(&self, x: i32, y: i32) -> (tile: Option<TileType>)
        requires
            self.wf(),
        ensures
            tile == if in_bounds(self@, (x as int, y as int)) {
                Some(tile_at(self@, (x as int, y as int)))
            } else {
                None
            },
    {
        let n = self.size();
        if x < 0 || x >= n || y < 0 || y >= n {
            return None;
        }
        Some(self.tiles[y as usize][x as usize])
    }

    /// Whether `pos` is closed to the player and to the ghosts: off the
    /// grid, or a wall.
    pub fn blocks(&self, pos: (i32, i32)) -> (closed: bool)
        requires
            self.wf(),
        ensures
            closed == blocked(self@, (pos.0 as int, pos.1 as int)),
    {
        match self.get(pos.0, pos.1) {
            None => true,
            Some(tile) => tile == TileType::Wall,
        }
    }

    /// Takes the dot at column `x`, row `y`, if one lies there: the cell
    /// becomes `Empty` and the answer is `true`. Any other cell, and any
    /// place off the grid, is left as it is.
    pub fn eat_dot(&mut self, x: i32, y: i32) -> (eaten: bool)
        requires
            old(self).wf(),
        ensures
            final(self).wf(),
            eaten == (in_bounds(old(self)@, (x as int, y as int)) && tile_at(
                old(self)@,
                (x as int, y as int),
            ) == TileType::Dot),
            final(self)@ == if eaten {
                with_tile(old(self)@, (x as int, y as int), TileType::Empty)
            } else {
                old(self)@
            },
    {
        match self.get(x, y) {
            Some(TileType::Dot) => {
                put(&mut self.tiles, x as usize, y as usize, TileType::Empty);
                true
            },
            _ => false,
        }
    }

    /// The cells that hold `t`, row by row from the top, each row from the
    /// left.
    pub fn cells_holding(&self, t: TileType) -> (cells: Vec<(i32, i32)>)
        requires
            self.wf(),
        ensures
            cells_of(cells@) == cells_holding(self@, t),
    {
        let n = self.tiles.len();
        let mut cells: Vec<(i32, i32)> = Vec::new();
        let mut y: usize = 0;
        proof {
            lemma_cells_holding_ends(self@, t);
        }
        while y < n
            invariant
                self.wf(),
                n == side(self@),
                y <= n,
                cells_of(cells@) == cells_holding_upto(self@, t, y * n),
            decreases n - y,
        {
            let mut x: usize = 0;
            while x < n
                invariant
                    self.wf(),
                    n == side(self@),
                    y < n,
                    x <= n,
                    cells_of(cells@) == cells_holding_upto(self@, t, y * n + x),
                decreases n - x,
            {
                proof {
                    lemma_cells_holding_step(self@, t, x as int, y as int);
                }
                if self.tiles[y][x] == t {
                    cells.push((x as i32, y as i32));
                }
                x += 1;
            }
            assert(y * n + n == (y + 1) * n) by (nonlinear_arith);
            y += 1;
        }
        proof {
            lemma_cells_holding_ends(self@, t);
        }
        cells
    }

    /// Generates the maze of a new session, of side `n`.
    ///
    /// Each cell on a wall line becomes a wall once in `WALL_ONE_IN` draws;
    /// each cell that got no wall becomes a dot once in `DOT_ONE_IN` draws;
    /// then the center and its four neighbours are emptied, so that the
    /// player has somewhere to start. Whatever the draws, the result is a
    /// board of side `n` with that clearing, and with walls on wall lines
    /// only.
    pub fn generate(n: i32) -> (grid: Grid)
        requires
            3 <= n <= MAX_GRID_SIZE,
        ensures
            grid.wf(),
            side(grid@) == n,
            spawn_clear(grid@),
            walls_on_lines(grid@),
    {
        let size = n as usize;
        let mut tiles = blank(size);
        let mut x: usize = 0;
        while x < size
            invariant
                x <= size,
                size == n,
                3 <= n <= MAX_GRID_SIZE,
                is_board(rows_of(tiles)),
                side(rows_of(tiles)) == n,
                walls_on_lines(rows_of(tiles)),
            decreases size - x,
        {
            let mut y: usize = 0;
            while y < size
                invariant
                    x < size,
                    y <= size,
                    size == n,
                    3 <= n <= MAX_GRID_SIZE,
                    is_board(rows_of(tiles)),
                    side(rows_of(tiles)) == n,
                    walls_on_lines(rows_of(tiles)),
                decreases size - y,
            {
                let lined = on_wall_line_at(x, y);
                let wall_draw = lined && random_ratio(1, WALL_ONE_IN);
                let dot_draw = !wall_draw && random_ratio(1, DOT_ONE_IN);
                put(&mut tiles, x, y, pick_tile(lined, wall_draw, dot_draw));
                y += 1;
            }
            x += 1;
        }
        let center = size / 2;
        put(&mut tiles, center, center, TileType::Empty);
        put(&mut tiles, center, center - 1, TileType::Empty);
        put(&mut tiles, center, center + 1, TileType::Empty);
        put(&mut tiles, center - 1, center, TileType::Empty);
        put(&mut tiles, center + 1, center, TileType::Empty);
        Grid { tiles }
    }
}

} // verus!
