//! A maze-chase game core: a square board of walls and dots, a player that
//! eats the dots, and ghosts that wander the corridors.
//!
//! Everything here is plain state and rules. Drawing, the window and the
//! keyboard belong to whoever drives the game: they hand in the pressed key
//! each frame and get back the shapes to put on screen.

pub mod board;
mod chance;
pub mod game;
pub mod ghost;
pub mod grid;
pub mod scene;
pub mod text;
pub mod tile;

pub use game::{Key, MainState};
pub use ghost::GhostEntity;
pub use grid::Grid;
pub use scene::{Color, Frame, Shape};
pub use tile::TileType;
