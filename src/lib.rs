//! A small notation for interval-training sessions: arithmetic over counts
//! and distances in meters, such as `600m + 4 * (400m + 800m) + 600m`.
//!
//! The library parses such text into a [`Workout`] tree and derives from
//! the tree its total distance and a canonical instruction string.

pub mod tree;
pub mod grammar;
pub mod parser;
pub mod eval;
pub mod render;
pub mod summary;
pub mod laws;

pub use tree::Workout;
pub use grammar::{Expected, ParseError};
pub use parser::parse_workout;
pub use eval::{EvalError, total_distance};
pub use render::instruction;
pub use summary::{WorkoutError, summary};
