use pacman::board::{GRID_SIZE, MAX_GRID_SIZE, WALL_STRIDE};
use pacman::grid::{on_wall_line_at, pick_tile};
use pacman::{Grid, TileType};

fn maze_rows(picture: &[&str]) -> Vec<Vec<TileType>> {
    picture
        .iter()
        .map(|line| {
            line.chars()
                .map(|c| match c {
                    '#' => TileType::Wall,
                    'o' => TileType::Dot,
                    _ => TileType::Empty,
                })
                .collect()
        })
        .collect()
}

fn cross_is_empty(grid: &Grid) -> bool {
    let c = grid.size() / 2;
    [(c, c), (c, c - 1), (c, c + 1), (c - 1, c), (c + 1, c)]
        .iter()
        .all(|&(x, y)| grid.get(x, y) == Some(TileType::Empty))
}

#[test]
fn generated_maze_has_the_side_asked_for() {
    for n in [3, 4, 5, 15, 16, 40] {
        let grid = Grid::generate(n);
        assert_eq!(grid.size(), n);
        for y in 0..n {
            for x in 0..n {
                assert!(grid.get(x, y).is_some());
            }
        }
    }
}

#[test]
fn generated_maze_clears_the_spawn_cross() {
    for _ in 0..50 {
        let grid = Grid::generate(GRID_SIZE);
        assert_eq!(grid.get(7, 7), Some(TileType::Empty));
        assert_eq!(grid.get(7, 6), Some(TileType::Empty));
        assert_eq!(grid.get(7, 8), Some(TileType::Empty));
        assert_eq!(grid.get(6, 7), Some(TileType::Empty));
        assert_eq!(grid.get(8, 7), Some(TileType::Empty));
    }
}

#[test]
fn smallest_maze_clears_the_spawn_cross() {
    for _ in 0..50 {
        let grid = Grid::generate(3);
        assert!(cross_is_empty(&grid));
        assert_eq!(grid.get(1, 1), Some(TileType::Empty));
        assert_eq!(grid.get(0, 1), Some(TileType::Empty));
        assert_eq!(grid.get(2, 1), Some(TileType::Empty));
        assert_eq!(grid.get(1, 0), Some(TileType::Empty));
        assert_eq!(grid.get(1, 2), Some(TileType::Empty));
    }
}

#[test]
fn even_sided_maze_clears_the_spawn_cross() {
    for _ in 0..20 {
        let grid = Grid::generate(4);
        assert_eq!(grid.get(2, 2), Some(TileType::Empty));
        assert_eq!(grid.get(1, 2), Some(TileType::Empty));
        assert_eq!(grid.get(3, 2), Some(TileType::Empty));
        assert_eq!(grid.get(2, 1), Some(TileType::Empty));
        assert_eq!(grid.get(2, 3), Some(TileType::Empty));
    }
}

#[test]
fn generated_walls_stand_on_wall_lines_only() {
    for _ in 0..20 {
        let grid = Grid::generate(GRID_SIZE);
        for y in 0..GRID_SIZE {
            for x in 0..GRID_SIZE {
                if grid.get(x, y) == Some(TileType::Wall) {
                    assert!(x % WALL_STRIDE == 0 || y % WALL_STRIDE == 0);
                }
            }
        }
    }
}

#[test]
fn generated_mazes_hold_walls_and_dots() {
    let mut walls = 0;
    let mut dots = 0;
    let mut empties = 0;
    for _ in 0..5 {
        let grid = Grid::generate(GRID_SIZE);
        walls += grid.cells_holding(TileType::Wall).len();
        dots += grid.cells_holding(TileType::Dot).len();
        empties += grid.cells_holding(TileType::Empty).len();
    }
    assert_eq!(walls + dots + empties, 5 * 15 * 15);
    assert!(walls > 0);
    assert!(dots > 0);
    assert!(empties >= 5 * 5);
}

#[test]
fn wall_lines_are_every_third_column_and_row() {
    assert!(on_wall_line_at(0, 0));
    assert!(on_wall_line_at(3, 1));
    assert!(on_wall_line_at(1, 3));
    assert!(on_wall_line_at(2, 6));
    assert!(on_wall_line_at(12, 14));
    assert!(!on_wall_line_at(1, 1));
    assert!(!on_wall_line_at(1, 2));
    assert!(!on_wall_line_at(7, 7));
    assert!(!on_wall_line_at(13, 14));
}

#[test]
fn tile_follows_the_draws() {
    assert_eq!(pick_tile(true, true, false), TileType::Wall);
    assert_eq!(pick_tile(true, true, true), TileType::Wall);
    assert_eq!(pick_tile(true, false, true), TileType::Dot);
    assert_eq!(pick_tile(true, false, false), TileType::Empty);
    assert_eq!(pick_tile(false, true, true), TileType::Dot);
    assert_eq!(pick_tile(false, true, false), TileType::Empty);
    assert_eq!(pick_tile(false, false, true), TileType::Dot);
    assert_eq!(pick_tile(false, false, false), TileType::Empty);
}

#[test]
fn rows_that_form_a_board_are_taken() {
    let grid = Grid::from_rows(maze_rows(&["#o.", "...", "o.#"])).unwrap();
    assert_eq!(grid.size(), 3);
    assert_eq!(grid.get(0, 0), Some(TileType::Wall));
    assert_eq!(grid.get(1, 0), Some(TileType::Dot));
    assert_eq!(grid.get(2, 0), Some(TileType::Empty));
    assert_eq!(grid.get(0, 2), Some(TileType::Dot));
    assert_eq!(grid.get(2, 2), Some(TileType::Wall));
}

#[test]
fn rows_that_form_no_board_are_refused() {
    assert!(Grid::from_rows(Vec::new()).is_none());
    assert!(Grid::from_rows(maze_rows(&["..", ".."])).is_none());
    assert!(Grid::from_rows(maze_rows(&["...", "..", "..."])).is_none());
    assert!(Grid::from_rows(maze_rows(&["...", "...", "....",])).is_none());
    assert!(Grid::from_rows(maze_rows(&["....", "....", "...."])).is_none());
    assert!(Grid::from_rows(maze_rows(&["...", "...", "...", "..."])).is_none());
}

#[test]
fn largest_side_keeps_a_full_board_within_the_score() {
    let n = MAX_GRID_SIZE as i64;
    assert!(10 * n * n <= i32::MAX as i64);
    assert!(10 * (n + 1) * (n + 1) > i32::MAX as i64);
}

#[test]
fn get_answers_none_off_the_grid() {
    let grid = Grid::from_rows(maze_rows(&["#o.", "...", "o.#"])).unwrap();
    assert_eq!(grid.get(-1, 0), None);
    assert_eq!(grid.get(0, -1), None);
    assert_eq!(grid.get(3, 0), None);
    assert_eq!(grid.get(0, 3), None);
    assert_eq!(grid.get(i32::MIN, i32::MAX), None);
}

#[test]
fn blocks_off_grid_and_walls_only() {
    let grid = Grid::from_rows(maze_rows(&["#o.", "...", "o.#"])).unwrap();
    assert!(grid.blocks((-1, 1)));
    assert!(grid.blocks((1, -1)));
    assert!(grid.blocks((3, 1)));
    assert!(grid.blocks((1, 3)));
    assert!(grid.blocks((i32::MAX, 0)));
    assert!(grid.blocks((0, i32::MIN)));
    assert!(grid.blocks((0, 0)));
    assert!(grid.blocks((2, 2)));
    assert!(!grid.blocks((1, 0)));
    assert!(!grid.blocks((2, 0)));
    assert!(!grid.blocks((1, 1)));
    assert!(!grid.blocks((0, 2)));
}

#[test]
fn eating_takes_dots_and_nothing_else() {
    let mut grid = Grid::from_rows(maze_rows(&["#o.", "...", "o.#"])).unwrap();
    assert!(!grid.eat_dot(0, 0));
    assert_eq!(grid.get(0, 0), Some(TileType::Wall));
    assert!(!grid.eat_dot(2, 0));
    assert_eq!(grid.get(2, 0), Some(TileType::Empty));
    assert!(!grid.eat_dot(5, 5));
    assert!(!grid.eat_dot(-1, 0));
    assert!(grid.eat_dot(1, 0));
    assert_eq!(grid.get(1, 0), Some(TileType::Empty));
    assert!(!grid.eat_dot(1, 0));
    assert_eq!(grid.get(0, 2), Some(TileType::Dot));
    assert_eq!(grid.cells_holding(TileType::Dot), vec![(0, 2)]);
}

#[test]
fn cells_are_listed_row_by_row() {
    let grid = Grid::from_rows(maze_rows(&["#o.", ".o.", "o.#"])).unwrap();
    assert_eq!(grid.cells_holding(TileType::Wall), vec![(0, 0), (2, 2)]);
    assert_eq!(grid.cells_holding(TileType::Dot), vec![(1, 0), (1, 1), (0, 2)]);
    assert_eq!(
        grid.cells_holding(TileType::Empty),
        vec![(2, 0), (0, 1), (2, 1), (1, 2)]
    );
}
