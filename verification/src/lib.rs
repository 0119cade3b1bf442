//! Core simulation engine for a grid snake game.
//!
//! The snake moves on a fixed bounded grid, eats spawned food items to grow,
//! and dies on self-collision or on leaving the grid. This crate holds the
//! tick-based update rule, collision detection, the food-spawning policy and
//! direction-input validation; rendering and input-event delivery live outside
//! and talk to the engine through plain values.

mod snake;
mod game;

pub use snake::Direction;
pub use snake::Snake;
pub use snake::Food;
pub use snake::FoodType;
pub use game::Board;
pub use game::Game;
pub use game::GameState;
pub use game::SCORE_MULTIPLIER;
