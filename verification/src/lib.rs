//! A verified simulation of a single-player snake game on a fixed
//! rectangular grid.
//!
//! The snake's body is not kept as an explicit list of segments: every
//! grid cell carries a decay counter, and the tick transition decrements
//! all of them, writing the new head with a fresh counter equal to the
//! snake's length. Growth on eating an apple is encoded by extending every
//! live segment's counter by one tick, which cancels the decay of that
//! step. The central invariants (at most one apple, distinct counters on
//! body segments) and the behaviour of the tick transition are stated and
//! proved in [`board`].

pub mod board;
pub mod counting;
pub mod direction;
pub mod field;
pub mod laws;
