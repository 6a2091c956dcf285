//! A falling-block puzzle engine: bit-packed shapes, table-free rotation,
//! collision testing, locking, line clearing and the per-tick session rules.

pub mod rotation;
pub mod shapes;
pub mod grid;
pub mod canvas;
pub mod board;
pub mod play;
pub mod session;
mod chance;
