//! Two small verified computations: the length of a Collatz sequence and the
//! transpose of a fixed 3×3 grid of integers.

pub mod collatz;
pub mod grid;
