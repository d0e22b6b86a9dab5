//! Move generation for single chess pieces on a board given as a list of
//! pieces, with a one-ply selector over the generated moves.

pub mod board;
pub mod piece;
pub mod moves;
pub mod laws;

