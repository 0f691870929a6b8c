//! Per-side castling rights.

use vstd::prelude::*;

use super::{Color, Flippable};

verus! {

/// One of the two castling directions.
#[derive(PartialEq, Eq, Structural, Hash, Debug, Copy, Clone)]
pub enum CastlingSide {
    Kingside,
    Queenside,
}

/// Which castling moves remain available to one side.
#[derive(PartialEq, Eq, Structural, Hash, Debug, Copy, Clone)]
pub enum CastlingRights {
    Neither,
    Kingside,
    Queenside,
    Both,
}

/// The castling rights of both sides: white's first, black's second.
#[derive(PartialEq, Eq, Structural, Hash, Debug, Copy, Clone)]
pub struct Castling(pub CastlingRights, pub CastlingRights);

impl Castling {
    /// The rights record of one side.
    pub open spec fn rights(self, c: Color) -> CastlingRights {
        match c {
            Color::White => self.0,
            Color::Black => self.1,
        }
    }

    /// Constructs a rights record with no castling available to either side.
    pub fn new() -> (c: Self)
        ensures
            c.rights(Color::White) == CastlingRights::Neither,
            c.rights(Color::Black) == CastlingRights::Neither,
    {
        Castling(CastlingRights::Neither, CastlingRights::Neither)
    }

    /// Reads one side's rights.
    pub fn get(self, c: Color) -> (r: CastlingRights)
        ensures
            r == self.rights(c),
    {
        match c {
            Color::White => self.0,
            Color::Black => self.1,
        }
    }

    /// Overwrites one side's rights, leaving the other side untouched.
    pub fn set(&mut self, c: Color, cr: CastlingRights)
        ensures
            final(self).rights(c) == cr,
            final(self).rights(c.other()) == old(self).rights(c.other()),
    {
        match c {
            Color::White => self.0 = cr,
            Color::Black => self.1 = cr,
        }
    }

    /// Resets both sides to no castling rights.
    pub fn clear(&mut self)
        ensures
            final(self).rights(Color::White) == CastlingRights::Neither,
            final(self).rights(Color::Black) == CastlingRights::Neither,
    {
        self.0 = CastlingRights::Neither;
        self.1 = CastlingRights::Neither;
    }
}

impl Default for Castling {
    /// At game start both sides may castle either way.
    fn default() -> (c: Self)
        ensures
            c.rights(Color::White) == CastlingRights::Both,
            c.rights(Color::Black) == CastlingRights::Both,
    {
        Castling(CastlingRights::Both, CastlingRights::Both)
    }
}

impl Flippable for Castling {
    /// Flipping swaps which side the two records belong to.
    open spec fn is_flip_of(self, other: Castling) -> bool {
        self.0 == other.1 && self.1 == other.0
    }

    fn flipped(&self) -> (r: Self) {
        Castling(self.1, self.0)
    }
}

/// Flipping a castling record twice gives the record back.
pub proof fn lemma_castling_flip_involution(a: Castling, b: Castling, c: Castling)
    requires
        b.is_flip_of(a),
        c.is_flip_of(b),
    ensures
        c == a,
{
}

} // verus!
