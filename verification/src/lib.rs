//! A bitboard representation of a chess position, together with a verified
//! parser that builds it from the standard six-field positional notation.

pub mod bits;
pub mod board;
pub mod fen;
