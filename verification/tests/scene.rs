use pacman::scene::{
    ACTOR_RADIUS, CAPTION_AT, CELL_SIZE, DOT_RADIUS, HALF_CELL, SCREEN_SIZE,
};
use pacman::text::decimal_text;
use pacman::{Color, GhostEntity, Grid, Key, MainState, Shape, TileType};

fn scene_rows(picture: &[&str]) -> Vec<Vec<TileType>> {
    picture
        .iter()
        .map(|line| {
            line.chars()
                .map(|c| match c {
                    '#' => TileType::Wall,
                    'o' => TileType::Dot,
                    _ => TileType::Empty,
                })
                .collect()
        })
        .collect()
}

#[test]
fn numbers_are_written_in_base_ten() {
    assert_eq!(decimal_text(0), "0");
    assert_eq!(decimal_text(7), "7");
    assert_eq!(decimal_text(9), "9");
    assert_eq!(decimal_text(10), "10");
    assert_eq!(decimal_text(120), "120");
    assert_eq!(decimal_text(1234567890), "1234567890");
    assert_eq!(decimal_text(2147483647), "2147483647");
    assert_eq!(decimal_text(u32::MAX), "4294967295");
    for n in 0..2000 {
        assert_eq!(decimal_text(n), format!("{}", n));
    }
}

#[test]
fn sizes_in_pixels() {
    assert_eq!(CELL_SIZE, 40);
    assert_eq!(HALF_CELL * 2, CELL_SIZE);
    assert_eq!(ACTOR_RADIUS, 20);
    assert_eq!(DOT_RADIUS, 5);
    assert_eq!(SCREEN_SIZE, 600);
    assert_eq!(CAPTION_AT, (10, 10));
}

#[test]
fn frame_of_a_small_game() {
    let grid = Grid::from_rows(scene_rows(&["#o.", "...", "o.#"])).unwrap();
    let ghosts = vec![GhostEntity::new(2, 0), GhostEntity::new(0, 1)];
    let state = MainState::from_parts(grid, (1, 1), ghosts, 0).unwrap();
    let frame = state.draw();
    assert_eq!(frame.background, Color::Black);
    assert_eq!(
        frame.shapes,
        vec![
            Shape::Rect { x: 0, y: 0, w: 40, h: 40, color: Color::Blue },
            Shape::Circle { cx: 60, cy: 20, radius: 5, color: Color::White },
            Shape::Circle { cx: 20, cy: 100, radius: 5, color: Color::White },
            Shape::Rect { x: 80, y: 80, w: 40, h: 40, color: Color::Blue },
            Shape::Circle { cx: 100, cy: 20, radius: 20, color: Color::Red },
            Shape::Circle { cx: 20, cy: 60, radius: 20, color: Color::Red },
            Shape::Circle { cx: 60, cy: 60, radius: 20, color: Color::Yellow },
        ]
    );
    assert_eq!(frame.caption, "Skor: 0");
    assert_eq!(frame.caption_at, (10, 10));
    assert_eq!(frame.caption_color, Color::Yellow);
}

#[test]
fn frame_of_an_empty_board_shows_the_player_alone() {
    let grid = Grid::from_rows(scene_rows(&["...", "...", "..."])).unwrap();
    let state = MainState::from_parts(grid, (2, 0), Vec::new(), 2500).unwrap();
    let frame = state.draw();
    assert_eq!(
        frame.shapes,
        vec![Shape::Circle { cx: 100, cy: 20, radius: 20, color: Color::Yellow }]
    );
    assert_eq!(frame.caption, "Skor: 2500");
}

#[test]
fn frame_follows_the_game() {
    let grid = Grid::from_rows(scene_rows(&["...", ".o.", "..."])).unwrap();
    let mut state = MainState::from_parts(grid, (0, 1), Vec::new(), 0).unwrap();
    assert_eq!(
        state.draw().shapes,
        vec![
            Shape::Circle { cx: 60, cy: 60, radius: 5, color: Color::White },
            Shape::Circle { cx: 20, cy: 60, radius: 20, color: Color::Yellow },
        ]
    );
    state.move_player(Some(Key::Right));
    let frame = state.draw();
    assert_eq!(
        frame.shapes,
        vec![Shape::Circle { cx: 60, cy: 60, radius: 20, color: Color::Yellow }]
    );
    assert_eq!(frame.caption, "Skor: 10");
}

#[test]
fn frame_of_a_new_game() {
    let state = MainState::new();
    let frame = state.draw();
    let walls = state.walls().cells_holding(TileType::Wall).len();
    let dots = state.walls().cells_holding(TileType::Dot).len();
    assert_eq!(frame.shapes.len(), walls + dots + 4 + 1);
    assert_eq!(
        frame.shapes[walls + dots + 4],
        Shape::Circle { cx: 300, cy: 300, radius: 20, color: Color::Yellow }
    );
    for (i, ghost) in state.ghosts().iter().enumerate() {
        assert_eq!(
            frame.shapes[walls + dots + i],
            Shape::Circle {
                cx: ghost.pos.0 * 40 + 20,
                cy: ghost.pos.1 * 40 + 20,
                radius: 20,
                color: Color::Red
            }
        );
    }
    for shape in &frame.shapes[..walls + dots] {
        match *shape {
            Shape::Rect { x, y, w, h, color } => {
                assert_eq!(state.walls().get(x / 40, y / 40), Some(TileType::Wall));
                assert_eq!((x % 40, y % 40, w, h, color), (0, 0, 40, 40, Color::Blue));
            }
            Shape::Circle { cx, cy, radius, color } => {
                assert_eq!(state.walls().get(cx / 40, cy / 40), Some(TileType::Dot));
                assert_eq!((cx % 40, cy % 40, radius, color), (20, 20, 5, Color::White));
            }
        }
    }
    assert_eq!(frame.caption, "Skor: 0");
}
