pub mod board;
pub mod pegs;
pub mod solver;
