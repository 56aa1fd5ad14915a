//! The mathematical model of the board.
//!
//! A board is a sequence of rows, `m[y][x]`, and a cell is a pair `(x, y)`.
//! The executable grid and the game state describe themselves through the
//! functions of this module.

use crate::tile::TileType;
use vstd::arithmetic::div_mod::{lemma_fundamental_div_mod, lemma_fundamental_div_mod_converse};
use vstd::prelude::*;

verus! {

/// The board side used when nothing else is asked for.
pub const GRID_SIZE: i32 = 15;

/// The largest side a board may have: a board of this side, full of dots, is
/// still worth no more than an `i32` score can hold.
pub const MAX_GRID_SIZE: i32 = 14_654;

/// Walls may only stand on columns and rows whose index is a multiple of
/// this.
pub const WALL_STRIDE: i32 = 3;

/// Points scored for one dot.
pub const DOT_REWARD: i32 = 10;

/// A cell, as `(x, y)`.
pub type Cell = (int, int);

/// The model of a cell given in machine integers.
pub open spec fn cell(p: (i32, i32)) -> Cell {
    (p.0 as int, p.1 as int)
}

/// The side of `m`.
pub open spec fn side(m: Seq<Seq<TileType>>) -> int {
    m.len() as int
}

/// `m` is a board: square, with a side between 3 and `MAX_GRID_SIZE`.
pub open spec fn is_board(m: Seq<Seq<TileType>>) -> bool {
    &&& 3 <= m.len() <= MAX_GRID_SIZE
    &&& forall|y: int| 0 <= y < m.len() ==> (#[trigger] m[y]).len() == m.len()
}

/// `c` lies on the board.
pub open spec fn in_bounds(m: Seq<Seq<TileType>>, c: Cell) -> bool {
    0 <= c.0 < m.len() && 0 <= c.1 < m.len()
}

/// The tile at `c`.
pub open spec fn tile_at(m: Seq<Seq<TileType>>, c: Cell) -> TileType
    recommends
        in_bounds(m, c),
{
    m[c.1][c.0]
}

/// Nothing can step onto `c`: it is off the board or a wall.
pub open spec fn blocked(m: Seq<Seq<TileType>>, c: Cell) -> bool {
    !in_bounds(m, c) || tile_at(m, c) == TileType::Wall
}

/// The cell in the middle of the board, where the player starts.
pub open spec fn center(m: Seq<Seq<TileType>>) -> Cell {
    (side(m) / 2, side(m) / 2)
}

/// The center and its four direct neighbours are `Empty`.
pub open spec fn spawn_clear(m: Seq<Seq<TileType>>) -> bool {
    let c = side(m) / 2;
    &&& tile_at(m, (c, c)) == TileType::Empty
    &&& tile_at(m, (c - 1, c)) == TileType::Empty
    &&& tile_at(m, (c + 1, c)) == TileType::Empty
    &&& tile_at(m, (c, c - 1)) == TileType::Empty
    &&& tile_at(m, (c, c + 1)) == TileType::Empty
}

/// `c` is on a column or a row where walls may stand.
pub open spec fn on_wall_line(c: Cell) -> bool {
    c.0 % (WALL_STRIDE as int) == 0 || c.1 % (WALL_STRIDE as int) == 0
}

/// Every wall of `m` stands on a wall line.
pub open spec fn walls_on_lines(m: Seq<Seq<TileType>>) -> bool {
    forall|x: int, y: int|
        in_bounds(m, (x, y)) && #[trigger] m[y][x] == TileType::Wall ==> on_wall_line((x, y))
}

/// `m` with the tile at `c` replaced by `t`.
pub open spec fn with_tile(m: Seq<Seq<TileType>>, c: Cell, t: TileType) -> Seq<Seq<TileType>>
    recommends
        in_bounds(m, c),
{
    m.update(c.1, m[c.1].update(c.0, t))
}

/// Replacing one tile keeps the shape of the board and touches no other
/// cell.
pub proof fn lemma_with_tile(m: Seq<Seq<TileType>>, c: Cell, t: TileType)
    requires
        is_board(m),
        in_bounds(m, c),
    ensures
        is_board(with_tile(m, c, t)),
        side(with_tile(m, c, t)) == side(m),
        tile_at(with_tile(m, c, t), c) == t,
        forall|x: int, y: int|
            in_bounds(m, (x, y)) && (x, y) != c ==> #[trigger] with_tile(m, c, t)[y][x] == m[y][x],
{
}

/// Emptying a cell closes no cell that was open.
pub proof fn lemma_emptying_keeps_open(m: Seq<Seq<TileType>>, c: Cell, p: Cell)
    requires
        is_board(m),
        in_bounds(m, c),
        !blocked(m, p),
    ensures
        !blocked(with_tile(m, c, TileType::Empty), p),
{
    lemma_with_tile(m, c, TileType::Empty);
}

/// The cells of a board of side `n`, row by row from the top, each row from
/// the left.
pub open spec fn row_major(n: int) -> Seq<Cell> {
    Seq::new((n * n) as nat, |k: int| (k % n, k / n))
}

/// The test "this cell of `m` holds `t`".
pub open spec fn holds(m: Seq<Seq<TileType>>, t: TileType) -> spec_fn(Cell) -> bool {
    |c: Cell| tile_at(m, c) == t
}

/// The cells of `m` that hold `t`, in row-major order.
pub open spec fn cells_holding(m: Seq<Seq<TileType>>, t: TileType) -> Seq<Cell> {
    row_major(side(m)).filter(holds(m, t))
}

/// The cells that hold `t` among the first `k` of the row-major order.
pub open spec fn cells_holding_upto(m: Seq<Seq<TileType>>, t: TileType, k: int) -> Seq<Cell> {
    row_major(side(m)).take(k).filter(holds(m, t))
}

/// How many dots are left on `m`.
pub open spec fn dot_count(m: Seq<Seq<TileType>>) -> nat {
    cells_holding(m, TileType::Dot).len()
}

/// The models of a list of cells given in machine integers.
pub open spec fn cells_of(ps: Seq<(i32, i32)>) -> Seq<Cell> {
    ps.map_values(|p: (i32, i32)| cell(p))
}

/// The place of `(x, y)` in row-major order.
pub proof fn lemma_row_major_index(n: int, x: int, y: int)
    requires
        0 <= x < n,
        0 <= y < n,
    ensures
        0 <= y * n + x < n * n,
        row_major(n).len() == n * n,
        row_major(n)[y * n + x] == (x, y),
{
    assert(0 <= y * n && y * n + n <= n * n) by (nonlinear_arith)
        requires
            0 <= y < n,
    ;
    lemma_fundamental_div_mod_converse(y * n + x, n, y, x);
}

/// Every entry of the row-major order is a cell of the board.
pub proof fn lemma_row_major_in_bounds(n: int, k: int)
    requires
        0 < n,
        0 <= k < n * n,
    ensures
        0 <= row_major(n)[k].0 < n,
        0 <= row_major(n)[k].1 < n,
{
    assert(0 <= k / n < n) by (nonlinear_arith)
        requires
            0 < n,
            0 <= k < n * n,
    ;
}

/// Walking the board in row-major order, the cell `(x, y)` comes right after
/// the first `y * n + x` cells, and joins the cells that hold `t` exactly
/// when it holds `t`.
pub proof fn lemma_cells_holding_step(m: Seq<Seq<TileType>>, t: TileType, x: int, y: int)
    requires
        is_board(m),
        in_bounds(m, (x, y)),
    ensures
        0 <= y * side(m) + x < side(m) * side(m),
        cells_holding_upto(m, t, y * side(m) + x + 1) == if tile_at(m, (x, y)) == t {
            cells_holding_upto(m, t, y * side(m) + x).push((x, y))
        } else {
            cells_holding_upto(m, t, y * side(m) + x)
        },
{
    let n = side(m);
    let k = y * n + x;
    lemma_row_major_index(n, x, y);
    assert(row_major(n).take(k + 1) =~= row_major(n).take(k).push((x, y)));
    row_major(n).take(k).lemma_filter_push((x, y), holds(m, t));
}

/// Before the walk starts no cell has been seen; once it is over all have.
pub proof fn lemma_cells_holding_ends(m: Seq<Seq<TileType>>, t: TileType)
    requires
        is_board(m),
    ensures
        cells_holding_upto(m, t, 0) == Seq::<Cell>::empty(),
        cells_holding_upto(m, t, side(m) * side(m)) == cells_holding(m, t),
{
    let n = side(m);
    assert(row_major(n).take(n * n) =~= row_major(n));
    reveal(Seq::filter);
}

/// Every cell listed as holding `t` is a cell of the board and holds `t`.
pub proof fn lemma_cells_holding_sound(m: Seq<Seq<TileType>>, t: TileType, i: int)
    requires
        is_board(m),
        0 <= i < cells_holding(m, t).len(),
    ensures
        in_bounds(m, cells_holding(m, t)[i]),
        tile_at(m, cells_holding(m, t)[i]) == t,
{
    let n = side(m);
    let c = cells_holding(m, t)[i];
    row_major(n).lemma_filter_pred(holds(m, t), i);
    row_major(n).lemma_filter_contains_rev(holds(m, t), c);
    let k = choose|k: int| 0 <= k < row_major(n).len() && row_major(n)[k] == c;
    lemma_row_major_in_bounds(n, k);
}

/// Every cell of the board that holds `t` is listed as holding it.
pub proof fn lemma_cells_holding_complete(m: Seq<Seq<TileType>>, t: TileType, c: Cell)
    requires
        is_board(m),
        in_bounds(m, c),
        tile_at(m, c) == t,
    ensures
        cells_holding(m, t).contains(c),
        cells_holding(m, t).len() > 0,
{
    let n = side(m);
    lemma_row_major_index(n, c.0, c.1);
    row_major(n).lemma_filter_contains(holds(m, t), c.1 * n + c.0);
}

/// A board has no more dots than cells.
pub proof fn lemma_dot_count_bound(m: Seq<Seq<TileType>>)
    requires
        is_board(m),
    ensures
        dot_count(m) <= side(m) * side(m),
        DOT_REWARD * dot_count(m) <= i32::MAX,
{
    let n = side(m);
    assert(0 <= n * n <= MAX_GRID_SIZE * MAX_GRID_SIZE) by (nonlinear_arith)
        requires
            0 <= n <= MAX_GRID_SIZE,
    ;
    row_major(n).lemma_filter_len(holds(m, TileType::Dot));
}

/// Eating the dot at `c` leaves one dot fewer among the first `k` cells once
/// the walk has passed `c`, and as many as before until then.
proof fn lemma_eat_dot_upto(m: Seq<Seq<TileType>>, c: Cell, k: int)
    requires
        is_board(m),
        in_bounds(m, c),
        tile_at(m, c) == TileType::Dot,
        0 <= k <= side(m) * side(m),
    ensures
        cells_holding_upto(m, TileType::Dot, k).len() == cells_holding_upto(
            with_tile(m, c, TileType::Empty),
            TileType::Dot,
            k,
        ).len() + if k > c.1 * side(m) + c.0 {
            1int
        } else {
            0int
        },
    decreases k,
{
    let n = side(m);
    let eaten = with_tile(m, c, TileType::Empty);
    lemma_with_tile(m, c, TileType::Empty);
    if k == 0 {
        lemma_cells_holding_ends(m, TileType::Dot);
        lemma_cells_holding_ends(eaten, TileType::Dot);
        assert(0 <= c.1 * n) by (nonlinear_arith)
            requires
                0 <= c.1,
                0 <= n,
        ;
    } else {
        let j = k - 1;
        let x = j % n;
        let y = j / n;
        lemma_eat_dot_upto(m, c, j);
        lemma_row_major_in_bounds(n, j);
        lemma_fundamental_div_mod(j, n);
        assert(j == y * n + x) by (nonlinear_arith)
            requires
                j == n * y + x,
        ;
        lemma_cells_holding_step(m, TileType::Dot, x, y);
        lemma_cells_holding_step(eaten, TileType::Dot, x, y);
        if (x, y) != c && j == c.1 * n + c.0 {
            lemma_fundamental_div_mod_converse(j, n, c.1, c.0);
        }
    }
}

/// Eating a dot leaves exactly one dot fewer on the board.
pub proof fn lemma_eat_dot(m: Seq<Seq<TileType>>, c: Cell)
    requires
        is_board(m),
        in_bounds(m, c),
        tile_at(m, c) == TileType::Dot,
    ensures
        dot_count(with_tile(m, c, TileType::Empty)) + 1 == dot_count(m),
{
    let n = side(m);
    lemma_with_tile(m, c, TileType::Empty);
    lemma_row_major_index(n, c.0, c.1);
    lemma_eat_dot_upto(m, c, n * n);
    lemma_cells_holding_ends(m, TileType::Dot);
    lemma_cells_holding_ends(with_tile(m, c, TileType::Empty), TileType::Dot);
}

} // verus!
