//! A territory-capture strategy game on a square grid.
//!
//! Players own cells that grow garrisons on periodic clocks and queue
//! directional unit movements; a discrete tick engine resolves growth,
//! combat, and capture for all players in turn.

pub mod board;
pub mod cell;
pub mod direction;
pub mod game;
pub mod laws;
pub mod player;
mod rng;
pub mod units;

pub use board::Board;
pub use cell::Cell;
pub use cell::Team;
pub use direction::Direction;
pub use direction::Move;
pub use direction::Position;
pub use game::GameState;
pub use game::resolve_attack;
pub use player::PlayerState;
