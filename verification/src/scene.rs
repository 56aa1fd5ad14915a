//! What a frame looks like: the shapes to draw for a game state, in pixels.
//!
//! A cell is a square of `CELL_SIZE` pixels. Walls fill their cell; dots,
//! ghosts and the player are discs about the middle of theirs. The score is
//! written in the top left corner.

use crate::board::{
    cell, in_bounds, is_board, lemma_row_major_index, row_major, side, tile_at, Cell, GRID_SIZE,
    MAX_GRID_SIZE,
};
use crate::game::{ghosts_of, GameView, MainState};
use crate::ghost::GhostView;
use crate::text::{decimal, decimal_text};
use crate::tile::TileType;
use vstd::prelude::*;
use vstd::string::StringExecFns;

verus! {

/// The side of a cell, in pixels.
pub const CELL_SIZE: i32 = 40;

/// The side of the window for a board of the usual side, in pixels.
pub const SCREEN_SIZE: i32 = GRID_SIZE * CELL_SIZE;

/// The radius of a dot, in pixels.
pub const DOT_RADIUS: i32 = 5;

/// Half the side of a cell: from its corner to its middle.
pub const HALF_CELL: i32 = 20;

/// The radius of a ghost and of the player, in pixels: they fill their cell.
pub const ACTOR_RADIUS: i32 = HALF_CELL;

/// Where the score is written, in pixels from the top left corner.
pub const CAPTION_AT: (i32, i32) = (10, 10);

/// The colours of the game.
#[derive(Clone, Copy, PartialEq, Eq, Debug, Structural)]
pub enum Color {
    Black,
    Blue,
    White,
    Red,
    Yellow,
}

/// A filled shape, in pixels.
#[derive(Clone, Copy, PartialEq, Eq, Debug, Structural)]
pub enum Shape {
    /// A rectangle with its top left corner at `(x, y)`.
    Rect { x: i32, y: i32, w: i32, h: i32, color: Color },
    /// A disc about `(cx, cy)`.
    Circle { cx: i32, cy: i32, radius: i32, color: Color },
}

/// A shape as the rules see it.
pub enum ShapeView {
    Rect { x: int, y: int, w: int, h: int, color: Color },
    Circle { cx: int, cy: int, radius: int, color: Color },
}

impl View for Shape {
    type V = ShapeView;

    open spec fn view(&self) -> ShapeView {
        match *self {
            Shape::Rect { x, y, w, h, color } => ShapeView::Rect {
                x: x as int,
                y: y as int,
                w: w as int,
                h: h as int,
                color,
            },
            Shape::Circle { cx, cy, radius, color } => ShapeView::Circle {
                cx: cx as int,
                cy: cy as int,
                radius: radius as int,
                color,
            },
        }
    }
}

/// The models of a list of shapes.
pub open spec fn shapes_of(shapes: Seq<Shape>) -> Seq<ShapeView> {
    shapes.map_values(|s: Shape| s@)
}

/// Everything to draw for one frame, in the order in which to draw it.
#[derive(Debug)]
pub struct Frame {
    /// The colour to clear the window to.
    pub background: Color,
    /// The shapes, first to last.
    pub shapes: Vec<Shape>,
    /// The text that shows the score.
    pub caption: String,
    /// Where the text goes.
    pub caption_at: (i32, i32),
    /// The colour of the text.
    pub caption_color: Color,
}

/// The disc of the given radius and colour about the middle of cell `c`.
pub open spec fn disc(c: Cell, radius: int, color: Color) -> ShapeView {
    ShapeView::Circle {
        cx: c.0 * CELL_SIZE + HALF_CELL,
        cy: c.1 * CELL_SIZE + HALF_CELL,
        radius,
        color,
    }
}

/// What to draw for the tile `t` at cell `c`: a blue square for a wall, a
/// small white disc for a dot, nothing for an empty cell.
pub open spec fn tile_shape(c: Cell, t: TileType) -> Option<ShapeView> {
    match t {
        TileType::Wall => Some(
            ShapeView::Rect {
                x: c.0 * CELL_SIZE,
                y: c.1 * CELL_SIZE,
                w: CELL_SIZE as int,
                h: CELL_SIZE as int,
                color: Color::Blue,
            },
        ),
        TileType::Dot => Some(disc(c, DOT_RADIUS as int, Color::White)),
        TileType::Empty => None,
    }
}

/// The drawing of the cell `c` of `m`, as a function of `c`.
pub open spec fn cell_shape(m: Seq<Seq<TileType>>) -> spec_fn(Cell) -> Option<ShapeView> {
    |c: Cell| tile_shape(c, tile_at(m, c))
}

/// The shapes of the maze: those of its cells, in row-major order.
pub open spec fn maze_shapes(m: Seq<Seq<TileType>>) -> Seq<ShapeView> {
    row_major(side(m)).filter_map(cell_shape(m))
}

/// The shapes of the first `k` cells of the maze.
pub open spec fn maze_shapes_upto(m: Seq<Seq<TileType>>, k: int) -> Seq<ShapeView> {
    row_major(side(m)).take(k).filter_map(cell_shape(m))
}

/// The red disc of a ghost.
pub open spec fn ghost_shape(g: GhostView) -> ShapeView {
    disc(g.pos, ACTOR_RADIUS as int, Color::Red)
}

/// The discs of a list of ghosts, in their order.
pub open spec fn ghost_shapes(ghosts: Seq<GhostView>) -> Seq<ShapeView> {
    ghosts.map_values(|g: GhostView| ghost_shape(g))
}

/// The shapes of a frame: the maze, then the ghosts in their order, then
/// the yellow disc of the player.
pub open spec fn scene(s: GameView) -> Seq<ShapeView> {
    maze_shapes(s.maze) + ghost_shapes(s.ghosts) + seq![
        disc(s.player, ACTOR_RADIUS as int, Color::Yellow),
    ]
}

/// The word before the score.
pub open spec fn score_label() -> Seq<char> {
    seq!['S', 'k', 'o', 'r', ':', ' ']
}

/// The text that shows a score.
pub open spec fn caption(score: int) -> Seq<char> {
    score_label() + decimal(score as nat)
}

/// The disc of the given radius and colour about the middle of the cell
/// `pos`.
fn disc_at(pos: (i32, i32), radius: i32, color: Color) -> (shape: Shape)
    requires
        0 <= pos.0 < MAX_GRID_SIZE,
        0 <= pos.1 < MAX_GRID_SIZE,
    ensures
        shape@ == disc(cell(pos), radius as int, color),
{
    Shape::Circle {
        cx: pos.0 * CELL_SIZE + HALF_CELL,
        cy: pos.1 * CELL_SIZE + HALF_CELL,
        radius,
        color,
    }
}

/// What to draw for the tile `t` at the cell `pos`.
fn shape_of_tile(pos: (i32, i32), t: TileType) -> (shape: Option<Shape>)
    requires
        0 <= pos.0 < MAX_GRID_SIZE,
        0 <= pos.1 < MAX_GRID_SIZE,
    ensures
        match shape {
            Some(s) => tile_shape(cell(pos), t) == Some(s@),
            None => tile_shape(cell(pos), t) is None,
        },
{
    match t {
        TileType::Wall => Some(
            Shape::Rect {
                x: pos.0 * CELL_SIZE,
                y: pos.1 * CELL_SIZE,
                w: CELL_SIZE,
                h: CELL_SIZE,
                color: Color::Blue,
            },
        ),
        TileType::Dot => Some(disc_at(pos, DOT_RADIUS, Color::White)),
        TileType::Empty => None,
    }
}

/// Walking the maze in row-major order, the cell `(x, y)` comes right after
/// the first `y * n + x` cells and adds its shape, if it has one.
proof fn lemma_maze_shapes_step(m: Seq<Seq<TileType>>, x: int, y: int)
    requires
        is_board(m),
        in_bounds(m, (x, y)),
    ensures
        0 <= y * side(m) + x < side(m) * side(m),
        maze_shapes_upto(m, y * side(m) + x + 1) == maze_shapes_upto(m, y * side(m) + x) + (
        match tile_shape((x, y), tile_at(m, (x, y))) {
            Some(s) => seq![s],
            None => Seq::empty(),
        }),
{
    let n = side(m);
    lemma_row_major_index(n, x, y);
    row_major(n).lemma_filter_map_take_succ(cell_shape(m), y * n + x);
}

/// Before the walk starts nothing has been drawn; once it is over the whole
/// maze has.
proof fn lemma_maze_shapes_ends(m: Seq<Seq<TileType>>)
    requires
        is_board(m),
    ensures
        maze_shapes_upto(m, 0) == Seq::<ShapeView>::empty(),
        maze_shapes_upto(m, side(m) * side(m)) == maze_shapes(m),
{
    let n = side(m);
    assert(row_major(n).take(n * n) =~= row_major(n));
}

impl MainState {
    /// Lays out the frame that shows the game: on black, the walls and dots
    /// of the maze row by row, then the ghosts, then the player, and the
    /// score in yellow in the top left corner.
    pub fn draw(&self) -> (frame: Frame)
        requires
            self.wf(),
        ensures
            frame.background == Color::Black,
            shapes_of(frame.shapes@) == scene(self@),
            frame.caption@ == caption(self@.score),
            frame.caption_at == CAPTION_AT,
            frame.caption_color == Color::Yellow,
    {
        let walls = self.walls();
        let n = walls.size();
        let mut shapes: Vec<Shape> = Vec::new();
        proof {
            lemma_maze_shapes_ends(walls@);
        }
        let mut y: i32 = 0;
        while y < n
            invariant
                walls.wf(),
                n == side(walls@),
                0 <= y <= n,
                shapes_of(shapes@) == maze_shapes_upto(walls@, y * n),
            decreases n - y,
        {
            let mut x: i32 = 0;
            while x < n
                invariant
                    walls.wf(),
                    n == side(walls@),
                    0 <= y < n,
                    0 <= x <= n,
                    shapes_of(shapes@) == maze_shapes_upto(walls@, y * n + x),
                decreases n - x,
            {
                proof {
                    lemma_maze_shapes_step(walls@, x as int, y as int);
                }
                if let Some(tile) = walls.get(x, y) {
                    if let Some(shape) = shape_of_tile((x, y), tile) {
                        shapes.push(shape);
                    }
                }
                x += 1;
            }
            assert(y * n + n == (y + 1) * n) by (nonlinear_arith);
            y += 1;
        }
        let ghosts = self.ghosts();
        let ghost maze = shapes_of(shapes@);
        let mut i: usize = 0;
        while i < ghosts.len()
            invariant
                self.wf(),
                ghosts_of(ghosts@) == self@.ghosts,
                i <= ghosts@.len(),
                maze == maze_shapes(self@.maze),
                shapes_of(shapes@) == maze + ghost_shapes(self@.ghosts.take(i as int)),
            decreases ghosts@.len() - i,
        {
            let ghost before = shapes@;
            shapes.push(disc_at(ghosts[i].pos, ACTOR_RADIUS, Color::Red));
            assert(shapes_of(shapes@) =~= shapes_of(before).push(
                ghost_shape(self@.ghosts[i as int]),
            ));
            i += 1;
        }
        let ghost before = shapes@;
        shapes.push(disc_at(self.player_pos(), ACTOR_RADIUS, Color::Yellow));
        assert(shapes_of(shapes@) =~= shapes_of(before).push(
            disc(self@.player, ACTOR_RADIUS as int, Color::Yellow),
        ));
        let mut caption = String::from_str("Skor: ");
        proof {
            reveal_strlit("Skor: ");
        }
        let number = decimal_text(self.score() as u32);
        caption.append(number.as_str());
        Frame {
            background: Color::Black,
            shapes,
            caption,
            caption_at: CAPTION_AT,
            caption_color: Color::Yellow,
        }
    }
}

} // verus!
