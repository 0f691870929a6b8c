//! Board-state core of a chess engine: squares, bitboards, a mailbox,
//! castling rights, and the aggregate `Board` that keeps a dense bitboard
//! representation and a square-indexed lookup table consistent under every
//! mutation, together with the perspective flip that lets one set of
//! algorithms serve both colors.

pub mod bits;
pub mod board;
