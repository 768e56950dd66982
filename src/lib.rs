//! A chess rules engine: board geometry, per-piece movement rules, check and
//! pin detection, move validation and application, detection of positions in
//! which a side has no legal move, and a plain-text form of positions.
//!
//! - `piece`: sides, piece kinds, and each piece's movement rule.
//! - `path`: squares, directions, and the lines between squares.
//! - `board`: the position, its constructors, move validation and execution.
//! - `check`: attackers of a square, pins, and the no-legal-move test.
//! - `notation`: writing a position as text and reading it back.
//! - `random`: picking a legal move at random.
//! - `text`: decimal numbers and character buffers.

pub mod board;
pub mod check;
pub mod notation;
pub mod path;
pub mod piece;
pub mod random;
pub mod text;
