//! One-dimensional elementary cellular automaton.
//!
//! A row of boolean cells evolves step by step: each cell's next state is
//! chosen by an 8-bit rule, indexed by the cell's 3-neighbor context
//! (left, center, right), with everything beyond the row's edges inactive.

pub mod row;

pub use row::Line;
pub use row::next_n_digits;
