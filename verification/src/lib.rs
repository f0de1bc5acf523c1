//! Splits a PGN (Portable Game Notation) archive into three parallel
//! outputs: joined per-game lines, move text with the result token removed,
//! and the game result encoded as a signed integer.
//!
//! The crate holds the processing logic only: reading the archive and
//! writing the output files is left to the caller.

pub mod cli;
pub mod pipeline;
pub mod segment;
pub mod strip;
pub mod text;
pub mod winner;

pub use cli::Args;
pub use pipeline::process_lines;
pub use segment::Segmenter;
pub use segment::segment_games;
pub use strip::remove_move_counts;
pub use winner::parse_winner;
