//! Board state: the piece vocabulary, the perspective-flip capability, and
//! the aggregate `Board` with its invariant-preserving mutations.

use vstd::prelude::*;

pub mod bits;
pub mod castling;
pub mod mailbox;

pub use castling::{Castling, CastlingRights, CastlingSide};
pub use mailbox::Mailbox;

use crate::bits::{
    lemma_bitboard_ext, lemma_bitboard_flip_involution, lemma_square_view_injective, u64_bit,
    Bitboard, Square,
};
use castling::lemma_castling_flip_involution;
use mailbox::lemma_mailbox_view_injective;

verus! {

/// Component of a chess position that must be flipped when switching sides.
///
/// Every implementor states what it means for one value to be the flipped
/// image of another; `flipped` and `flip` are then pinned to that relation.
pub trait Flippable: Sized + Copy {
    /// Holds when `self` is the perspective-flipped image of `other`.
    spec fn is_flip_of(self, other: Self) -> bool;

    /// Returns the flipped version of an object.
    fn flipped(&self) -> (r: Self)
        ensures
            r.is_flip_of(*self),
    ;

    /// Flips an object in place.
    fn flip(&mut self)
        ensures
            final(self).is_flip_of(*old(self)),
    {
        *self = self.flipped();
    }
}

/// A column on a chessboard.
#[derive(PartialEq, Eq, Structural, Debug, Copy, Clone)]
pub enum File {
    A,
    B,
    C,
    D,
    E,
    F,
    G,
    H,
}

impl File {
    /// The index of the file: `A` is 0, `H` is 7.
    pub open spec fn as_int(self) -> int {
        match self {
            File::A => 0,
            File::B => 1,
            File::C => 2,
            File::D => 3,
            File::E => 4,
            File::F => 5,
            File::G => 6,
            File::H => 7,
        }
    }

    /// Constructs a `File` from an index below 8.
    pub fn new(x: u8) -> (f: Self)
        requires
            x < 8,
        ensures
            f.as_int() == x,
    {
        match x {
            0 => File::A,
            1 => File::B,
            2 => File::C,
            3 => File::D,
            4 => File::E,
            5 => File::F,
            6 => File::G,
            _ => File::H,
        }
    }

    /// Constructs a `File` without a range check; the caller guarantees
    /// validity.
    pub fn new_unchecked(x: u8) -> (f: Self)
        requires
            x < 8,
        ensures
            f.as_int() == x,
    {
        File::new(x)
    }

    /// The index of the file as an integer.
    pub fn index(self) -> (i: u8)
        ensures
            i == self.as_int(),
    {
        match self {
            File::A => 0,
            File::B => 1,
            File::C => 2,
            File::D => 3,
            File::E => 4,
            File::F => 5,
            File::G => 6,
            File::H => 7,
        }
    }
}

/// Two files with the same index are the same file.
pub proof fn lemma_file_index_injective(a: File, b: File)
    requires
        a.as_int() == b.as_int(),
    ensures
        a == b,
{
}

/// A row on a chessboard.
#[derive(PartialEq, Eq, Structural, Debug, Copy, Clone)]
pub enum Rank {
    First,
    Second,
    Third,
    Fourth,
    Fifth,
    Sixth,
    Seventh,
    Eighth,
}

impl Rank {
    /// The index of the rank: `First` is 0, `Eighth` is 7.
    pub open spec fn as_int(self) -> int {
        match self {
            Rank::First => 0,
            Rank::Second => 1,
            Rank::Third => 2,
            Rank::Fourth => 3,
            Rank::Fifth => 4,
            Rank::Sixth => 5,
            Rank::Seventh => 6,
            Rank::Eighth => 7,
        }
    }

    /// Constructs a `Rank` from an index below 8.
    pub fn new(x: u8) -> (r: Self)
        requires
            x < 8,
        ensures
            r.as_int() == x,
    {
        match x {
            0 => Rank::First,
            1 => Rank::Second,
            2 => Rank::Third,
            3 => Rank::Fourth,
            4 => Rank::Fifth,
            5 => Rank::Sixth,
            6 => Rank::Seventh,
            _ => Rank::Eighth,
        }
    }

    /// Constructs a `Rank` without a range check; the caller guarantees
    /// validity.
    pub fn new_unchecked(x: u8) -> (r: Self)
        requires
            x < 8,
        ensures
            r.as_int() == x,
    {
        Rank::new(x)
    }

    /// The index of the rank as an integer.
    pub fn index(self) -> (i: u8)
        ensures
            i == self.as_int(),
    {
        match self {
            Rank::First => 0,
            Rank::Second => 1,
            Rank::Third => 2,
            Rank::Fourth => 3,
            Rank::Fifth => 4,
            Rank::Sixth => 5,
            Rank::Seventh => 6,
            Rank::Eighth => 7,
        }
    }
}

/// Two ranks with the same index are the same rank.
pub proof fn lemma_rank_index_injective(a: Rank, b: Rank)
    requires
        a.as_int() == b.as_int(),
    ensures
        a == b,
{
}

/// White or black.
#[derive(PartialEq, Eq, Structural, Debug, Copy, Clone)]
pub enum Color {
    White,
    Black,
}

impl Color {
    /// The opposing color.
    pub open spec fn other(self) -> Color {
        match self {
            Color::White => Color::Black,
            Color::Black => Color::White,
        }
    }
}

impl Flippable for Color {
    open spec fn is_flip_of(self, other: Color) -> bool {
        self == other.other()
    }

    /// The flipped perspective belongs to the other side.
    fn flipped(&self) -> (r: Self) {
        match self {
            Color::White => Color::Black,
            Color::Black => Color::White,
        }
    }
}

/// The type of piece.
#[derive(PartialEq, Eq, Structural, Debug, Copy, Clone)]
pub enum Role {
    Pawn,
    Knight,
    Bishop,
    Rook,
    Queen,
    King,
}

/// Direction relative to perspective.
#[derive(PartialEq, Eq, Structural, Debug, Copy, Clone)]
pub enum Direction {
    North,
    East,
    South,
    West,
}

/// Combination of [`Color`] and [`Role`].
#[derive(PartialEq, Eq, Structural, Debug, Copy, Clone)]
pub struct Piece(pub Color, pub Role);

/// The occupant `p` is a piece of color `c`.
pub open spec fn holds_color(p: Option<Piece>, c: Color) -> bool {
    match p {
        Some(q) => q.0 == c,
        None => false,
    }
}

/// The occupant `p` is a piece of role `r`.
pub open spec fn holds_role(p: Option<Piece>, r: Role) -> bool {
    match p {
        Some(q) => q.1 == r,
        None => false,
    }
}

/// Full representation of a chessboard: one occupancy bitboard per color,
/// one per non-king role, a scalar king square per color, the mailbox that
/// is the authoritative piece-per-square record, the castling rights, and
/// the side to move.
///
/// Kings are tracked exclusively through the two scalar squares, never
/// through a role bitboard: a side has exactly one king, and a scalar
/// cannot fall out of step with a set.
#[derive(PartialEq, Debug, Copy, Clone)]
pub struct Board {
    turn: Color,
    white: Bitboard,
    black: Bitboard,
    pawns: Bitboard,
    knights: Bitboard,
    bishops: Bitboard,
    rooks: Bitboard,
    queens: Bitboard,
    white_king: Square,
    black_king: Square,
    pieces: Mailbox,
    pub castling: Castling,
}

/// The occupant of every square in the conventional starting position.
pub open spec fn starting_piece(i: int) -> Option<Piece> {
    if i == 0 || i == 7 {
        Some(Piece(Color::White, Role::Rook))
    } else if i == 1 || i == 6 {
        Some(Piece(Color::White, Role::Knight))
    } else if i == 2 || i == 5 {
        Some(Piece(Color::White, Role::Bishop))
    } else if i == 3 {
        Some(Piece(Color::White, Role::Queen))
    } else if i == 4 {
        Some(Piece(Color::White, Role::King))
    } else if 8 <= i < 16 {
        Some(Piece(Color::White, Role::Pawn))
    } else if 48 <= i < 56 {
        Some(Piece(Color::Black, Role::Pawn))
    } else if i == 56 || i == 63 {
        Some(Piece(Color::Black, Role::Rook))
    } else if i == 57 || i == 62 {
        Some(Piece(Color::Black, Role::Knight))
    } else if i == 58 || i == 61 {
        Some(Piece(Color::Black, Role::Bishop))
    } else if i == 59 {
        Some(Piece(Color::Black, Role::Queen))
    } else if i == 60 {
        Some(Piece(Color::Black, Role::King))
    } else {
        None
    }
}

impl Board {
    /// The mailbox view: the occupant of every square, as a sequence of 64
    /// slots.
    pub closed spec fn squares(self) -> Seq<Option<Piece>> {
        self.pieces@
    }

    /// The occupant of square `i`.
    pub open spec fn piece_at(self, i: int) -> Option<Piece> {
        self.squares()[i]
    }

    /// The occupancy bitboard of one color.
    pub closed spec fn color_bb(self, c: Color) -> Bitboard {
        match c {
            Color::White => self.white,
            Color::Black => self.black,
        }
    }

    /// The occupancy bitboard of one non-king role.
    pub closed spec fn role_bb(self, r: Role) -> Bitboard
        recommends
            r != Role::King,
    {
        match r {
            Role::Pawn => self.pawns,
            Role::Knight => self.knights,
            Role::Bishop => self.bishops,
            Role::Rook => self.rooks,
            Role::Queen => self.queens,
            Role::King => Bitboard(0),
        }
    }

    /// The index of the square holding one side's king.
    pub closed spec fn king_sq(self, c: Color) -> int {
        match c {
            Color::White => self.white_king@,
            Color::Black => self.black_king@,
        }
    }

    /// The side to move.
    pub closed spec fn side_to_move(self) -> Color {
        self.turn
    }

    /// The castling rights record.
    pub closed spec fn spec_castling(self) -> Castling {
        self.castling
    }

    /// The board's dual representation is consistent:
    /// a color bitboard holds a square exactly when the mailbox shows a
    /// piece of that color there; a role bitboard holds a square exactly
    /// when the mailbox shows a piece of that role there (kings excepted);
    /// and the mailbox shows a king of a color exactly on that side's king
    /// square.
    pub open spec fn wf(self) -> bool {
        &&& self.squares().len() == 64
        &&& forall|c: Color, i: int|
            0 <= i < 64 ==> (#[trigger] self.color_bb(c).has(i) <==> holds_color(
                self.piece_at(i),
                c,
            ))
        &&& forall|r: Role, i: int|
            r != Role::King && 0 <= i < 64 ==> (#[trigger] self.role_bb(r).has(i) <==> holds_role(
                self.piece_at(i),
                r,
            ))
        &&& 0 <= self.king_sq(Color::White) < 64
        &&& 0 <= self.king_sq(Color::Black) < 64
        &&& forall|c: Color, i: int|
            #![trigger self.piece_at(i), self.king_sq(c)]
            0 <= i < 64 ==> ((self.piece_at(i) == Some(Piece(c, Role::King))) <==> i
                == self.king_sq(c))
    }

    /// Kings, side to move, and castling rights agree between two boards.
    pub open spec fn same_frame(self, other: Board) -> bool {
        &&& self.king_sq(Color::White) == other.king_sq(Color::White)
        &&& self.king_sq(Color::Black) == other.king_sq(Color::Black)
        &&& self.side_to_move() == other.side_to_move()
        &&& self.spec_castling() == other.spec_castling()
    }

    /// Constructs the conventional starting position, white to move, with
    /// full castling rights for both sides.
    pub fn new() -> (b: Board)
        ensures
            b.wf(),
            forall|i: int| 0 <= i < 64 ==> #[trigger] b.piece_at(i) == starting_piece(i),
            b.side_to_move() == Color::White,
            b.spec_castling().rights(Color::White) == CastlingRights::Both,
            b.spec_castling().rights(Color::Black) == CastlingRights::Both,
            b.king_sq(Color::White) == 4,
            b.king_sq(Color::Black) == 60,
    {
        let mut pieces = Mailbox::new();
        let mut i: u8 = 0;
        while i < 64
            invariant
                i <= 64,
                pieces@.len() == 64,
                forall|j: int| 0 <= j < i ==> pieces@[j] == starting_piece(j),
            decreases 64 - i,
        {
            pieces.set(Square::new(i), starting_piece_at(i));
            i = i + 1;
        }
        let b = Board {
            turn: Color::White,
            white: Bitboard(0xFFFF),
            black: Bitboard(0xFFFF_0000_0000_0000),
            pawns: Bitboard(0x00FF_0000_0000_FF00),
            knights: Bitboard(0x4200_0000_0000_0042),
            bishops: Bitboard(0x2400_0000_0000_0024),
            rooks: Bitboard(0x8100_0000_0000_0081),
            queens: Bitboard(0x0800_0000_0000_0008),
            white_king: Square::new(4),
            black_king: Square::new(60),
            pieces,
            castling: Castling::default(),
        };
        proof {
            lemma_starting_masks();
            assert forall|c: Color, i: int|
                0 <= i < 64 implies (#[trigger] b.color_bb(c).has(i) <==> holds_color(
                b.piece_at(i),
                c,
            )) by {
                if c == Color::White {
                    assert(u64_bit(0xFFFFu64, i) <==> i < 16);
                    assert(b.color_bb(c)@ == 0xFFFFu64);
                } else {
                    assert(u64_bit(0xFFFF_0000_0000_0000u64, i) <==> i >= 48);
                    assert(b.color_bb(c)@ == 0xFFFF_0000_0000_0000u64);
                }
                assert(b.piece_at(i) == starting_piece(i));
            }
            assert forall|r: Role, i: int|
                r != Role::King && 0 <= i < 64 implies (#[trigger] b.role_bb(r).has(i)
                <==> holds_role(b.piece_at(i), r)) by {
                if r == Role::Pawn {
                    assert(u64_bit(0x00FF_0000_0000_FF00u64, i) <==> (8 <= i < 16 || 48 <= i < 56));
                    assert(b.role_bb(r)@ == 0x00FF_0000_0000_FF00u64);
                } else if r == Role::Knight {
                    assert(u64_bit(0x4200_0000_0000_0042u64, i) <==> (i == 1 || i == 6 || i == 57
                        || i == 62));
                    assert(b.role_bb(r)@ == 0x4200_0000_0000_0042u64);
                } else if r == Role::Bishop {
                    assert(u64_bit(0x2400_0000_0000_0024u64, i) <==> (i == 2 || i == 5 || i == 58
                        || i == 61));
                    assert(b.role_bb(r)@ == 0x2400_0000_0000_0024u64);
                } else if r == Role::Rook {
                    assert(u64_bit(0x8100_0000_0000_0081u64, i) <==> (i == 0 || i == 7 || i == 56
                        || i == 63));
                    assert(b.role_bb(r)@ == 0x8100_0000_0000_0081u64);
                } else {
                    assert(u64_bit(0x0800_0000_0000_0008u64, i) <==> (i == 3 || i == 59));
                    assert(b.role_bb(r)@ == 0x0800_0000_0000_0008u64);
                }
                assert(b.piece_at(i) == starting_piece(i));
            }
            assert forall|c: Color, i: int|
                #![trigger b.piece_at(i), b.king_sq(c)]
                0 <= i < 64 implies ((b.piece_at(i) == Some(Piece(c, Role::King))) <==> i
                == b.king_sq(c)) by {
                assert(b.piece_at(i) == starting_piece(i));
            }
        }
        b
    }

    /// Reads the side to move.
    pub fn turn(&self) -> (c: Color)
        ensures
            c == self.side_to_move(),
    {
        self.turn
    }

    /// O(1) lookup of the occupant of a square.
    pub fn get(&self, s: Square) -> (p: Option<Piece>)
        ensures
            p == self.piece_at(s@),
    {
        self.pieces.get(s)
    }

    /// Reads one color's occupancy bitboard.
    pub fn color_get(&self, c: Color) -> (b: Bitboard)
        ensures
            b == self.color_bb(c),
    {
        match c {
            Color::White => self.white,
            Color::Black => self.black,
        }
    }

    /// Reads one role's occupancy bitboard.
    ///
    /// Kings are not tracked by a role bitboard, so asking for the king's
    /// is rejected with `None`.
    pub fn role_get(&self, r: Role) -> (b: Option<Bitboard>)
        ensures
            b is Some <==> r != Role::King,
            r != Role::King ==> b == Some(self.role_bb(r)),
    {
        match r {
            Role::Pawn => Some(self.pawns),
            Role::Knight => Some(self.knights),
            Role::Bishop => Some(self.bishops),
            Role::Rook => Some(self.rooks),
            Role::Queen => Some(self.queens),
            Role::King => None,
        }
    }

    /// Gets the square of `c`'s king.
    pub fn king_get(&self, c: Color) -> (s: Square)
        ensures
            s@ == self.king_sq(c),
    {
        match c {
            Color::White => self.white_king,
            Color::Black => self.black_king,
        }
    }

    /// Moves one side's king bookkeeping to `s`: the old king square is
    /// emptied, `s` takes the king, and the color bitboard follows; the
    /// role bitboards are untouched.
    ///
    /// The destination must be empty or be that side's current king square.
    pub fn king_set(&mut self, c: Color, s: Square)
        requires
            old(self).wf(),
            old(self).piece_at(s@) is None || s@ == old(self).king_sq(c),
        ensures
            final(self).wf(),
            final(self).squares() == old(self).squares().update(old(self).king_sq(c), None).update(
                s@,
                Some(Piece(c, Role::King)),
            ),
            final(self).king_sq(c) == s@,
            final(self).king_sq(c.other()) == old(self).king_sq(c.other()),
            forall|r: Role| r != Role::King ==> final(self).role_bb(r) == old(self).role_bb(r),
            final(self).side_to_move() == old(self).side_to_move(),
            final(self).spec_castling() == old(self).spec_castling(),
    {
        proof {
            use_type_invariant(s);
        }
        let k = self.king_get(c);
        self.pieces.set(k, None);
        let mut cb = self.color_get(c);
        cb.remove(k);
        match c {
            Color::White => self.white = cb,
            Color::Black => self.black = cb,
        }
        self.pieces.set(s, Some(Piece(c, Role::King)));
        match c {
            Color::White => self.white_king = s,
            Color::Black => self.black_king = s,
        }
        let mut cb2 = self.color_get(c);
        cb2.add(s);
        match c {
            Color::White => self.white = cb2,
            Color::Black => self.black = cb2,
        }
        proof {
            assert(self.squares() =~= old(self).squares().update(
                old(self).king_sq(c),
                None,
            ).update(s@, Some(Piece(c, Role::King))));
            assert forall|i: int|
                0 <= i < 64 implies (#[trigger] self.color_bb(c).has(i) <==> ((old(self).color_bb(c).has(i) && i != old(self).king_sq(c)) || i == s@)) by {}
            lemma_king_set_wf(*old(self), *self, c, s@);
        }
    }

    /// Writes a non-king piece onto an empty square, updating the mailbox
    /// and the matching color and role bitboards together.
    pub fn piece_set(&mut self, p: Piece, s: Square)
        requires
            old(self).wf(),
            old(self).piece_at(s@) is None,
            p.1 != Role::King,
        ensures
            final(self).wf(),
            final(self).squares() == old(self).squares().update(s@, Some(p)),
            final(self).same_frame(*old(self)),
    {
        proof {
            use_type_invariant(s);
        }
        let mut cb = self.color_get(p.0);
        cb.add(s);
        match p.0 {
            Color::White => self.white = cb,
            Color::Black => self.black = cb,
        }
        let mut rb = match self.role_get(p.1) {
            Some(rb) => rb,
            None => Bitboard::empty(),
        };
        rb.add(s);
        match p.1 {
            Role::Pawn => self.pawns = rb,
            Role::Knight => self.knights = rb,
            Role::Bishop => self.bishops = rb,
            Role::Rook => self.rooks = rb,
            Role::Queen => self.queens = rb,
            Role::King => (),
        }
        self.pieces.set(s, Some(p));
        proof {
            assert(self.squares() =~= old(self).squares().update(s@, Some(p)));
            assert forall|i: int|
                0 <= i < 64 implies (#[trigger] self.color_bb(p.0).has(i) <==> (old(self).color_bb(p.0).has(i) || i == s@)) by {}
            assert forall|i: int|
                0 <= i < 64 implies (#[trigger] self.role_bb(p.1).has(i) <==> (old(self).role_bb(p.1).has(i) || i == s@)) by {}
            lemma_piece_set_wf(*old(self), *self, p, s@);
        }
    }

    /// Clears a square: the mailbox slot is emptied and the piece's color
    /// and role bits are cleared, returning the removed piece.
    ///
    /// A square that is empty or holds a king is left untouched and yields
    /// `None`: kings cannot be removed through this path, only relocated.
    pub fn remove(&mut self, s: Square) -> (r: Option<Piece>)
        requires
            old(self).wf(),
        ensures
            final(self).wf(),
            r == (match old(self).piece_at(s@) {
                Some(q) => if q.1 == Role::King {
                    None
                } else {
                    Some(q)
                },
                None => None,
            }),
            (match old(self).piece_at(s@) {
                Some(q) => q.1 != Role::King,
                None => false,
            }) ==> final(self).squares() == old(self).squares().update(s@, None) && final(self).same_frame(*old(self)),
            (match old(self).piece_at(s@) {
                Some(q) => q.1 == Role::King,
                None => true,
            }) ==> *final(self) == *old(self),
    {
        proof {
            use_type_invariant(s);
        }
        match self.get(s) {
            Some(q) => {
                if matches!(q.1, Role::King) {
                    None
                } else {
                    self.pieces.set(s, None);
                    let mut cb = self.color_get(q.0);
                    cb.remove(s);
                    match q.0 {
                        Color::White => self.white = cb,
                        Color::Black => self.black = cb,
                    }
                    let mut rb = match self.role_get(q.1) {
                        Some(rb) => rb,
                        None => Bitboard::empty(),
                    };
                    rb.remove(s);
                    match q.1 {
                        Role::Pawn => self.pawns = rb,
                        Role::Knight => self.knights = rb,
                        Role::Bishop => self.bishops = rb,
                        Role::Rook => self.rooks = rb,
                        Role::Queen => self.queens = rb,
                        Role::King => (),
                    }
                    proof {
                        assert(self.squares() =~= old(self).squares().update(s@, None));
                        assert forall|i: int|
                            0 <= i < 64 implies (#[trigger] self.color_bb(q.0).has(i) <==> (old(self).color_bb(q.0).has(i) && i != s@)) by {}
                        assert forall|i: int|
                            0 <= i < 64 implies (#[trigger] self.role_bb(q.1).has(i) <==> (old(self).role_bb(q.1).has(i) && i != s@)) by {}
                        lemma_remove_wf(*old(self), *self, q, s@);
                    }
                    Some(q)
                }
            },
            None => None,
        }
    }

    /// Places a piece over an *occupied* square.
    ///
    /// If the square is empty, nothing happens and `false` is returned.
    /// If the square holds a king, that king's bookkeeping is re-asserted
    /// and the board is unchanged.  Otherwise the old piece is taken off
    /// and `p` is written in its place, and `true` is returned.
    pub fn place(&mut self, s: Square, p: Piece) -> (occupied: bool)
        requires
            old(self).wf(),
            (match old(self).piece_at(s@) {
                Some(q) => q.1 != Role::King ==> p.1 != Role::King,
                None => true,
            }),
        ensures
            final(self).wf(),
            occupied == (old(self).piece_at(s@) is Some),
            (match old(self).piece_at(s@) {
                Some(q) => if q.1 == Role::King {
                    *final(self) == *old(self)
                } else {
                    final(self).squares() == old(self).squares().update(s@, Some(p)) && final(self).same_frame(*old(self))
                },
                None => *final(self) == *old(self),
            }),
    {
        proof {
            use_type_invariant(s);
        }
        match self.get(s) {
            Some(q) => {
                if matches!(q.1, Role::King) {
                    let ghost pre = *self;
                    self.king_set(q.0, s);
                    proof {
                        assert(pre.squares()[s@] == Some(Piece(q.0, Role::King)));
                        assert(self.squares() =~= pre.squares());
                        lemma_same_state_eq(pre, *self);
                    }
                } else {
                    self.remove(s);
                    self.piece_set(p, s);
                    proof {
                        assert(self.squares() =~= old(self).squares().update(s@, Some(p)));
                    }
                }
                true
            },
            None => false,
        }
    }

    /// Unconditionally removes whatever is on the square (if anything),
    /// then places the new piece there: kings go through the king
    /// bookkeeping, every other role through the bitboard-and-mailbox
    /// update.  Returns what was previously there, or `None` if the square
    /// was empty or held a king.
    ///
    /// A king may only be written over its own side's king square or an
    /// otherwise empty or non-king square; a square holding a king accepts
    /// only that same king back.
    pub fn replace(&mut self, s: Square, p: Piece) -> (prev: Option<Piece>)
        requires
            old(self).wf(),
            (match old(self).piece_at(s@) {
                Some(q) => q.1 == Role::King ==> p == q,
                None => true,
            }),
        ensures
            final(self).wf(),
            prev == (match old(self).piece_at(s@) {
                Some(q) => if q.1 == Role::King {
                    None
                } else {
                    Some(q)
                },
                None => None,
            }),
            p.1 != Role::King ==> final(self).squares() == old(self).squares().update(
                s@,
                Some(p),
            ) && final(self).same_frame(*old(self)),
            p.1 == Role::King ==> final(self).squares() == old(self).squares().update(
                old(self).king_sq(p.0),
                None,
            ).update(s@, Some(p)) && final(self).king_sq(p.0) == s@ && final(self).king_sq(
                p.0.other(),
            ) == old(self).king_sq(p.0.other()) && final(self).side_to_move() == old(self).side_to_move() && final(self).spec_castling() == old(self).spec_castling(),
    {
        proof {
            use_type_invariant(s);
        }
        let result = self.remove(s);
        let ghost mid = *self;
        if matches!(p.1, Role::King) {
            self.king_set(p.0, s);
            proof {
                assert(self.squares() =~= old(self).squares().update(
                    old(self).king_sq(p.0),
                    None,
                ).update(s@, Some(p)));
            }
        } else {
            self.piece_set(p, s);
            proof {
                assert(self.squares() =~= old(self).squares().update(s@, Some(p)));
            }
        }
        result
    }

    /// Removes the piece at `from` and replaces it at `to`, returning what
    /// occupied `to` before the move (a capture, or `None`).
    ///
    /// Moving from an empty square, moving a king, or moving onto a king
    /// is a precondition violation, not a recoverable case.
    pub fn move_piece(&mut self, from: Square, to: Square) -> (captured: Option<Piece>)
        requires
            old(self).wf(),
            old(self).piece_at(from@) matches Some(q) && q.1 != Role::King,
            (match old(self).piece_at(to@) {
                Some(t) => t.1 != Role::King,
                None => true,
            }),
        ensures
            final(self).wf(),
            captured == (if from@ == to@ {
                None
            } else {
                old(self).piece_at(to@)
            }),
            final(self).squares() == old(self).squares().update(from@, None).update(
                to@,
                old(self).piece_at(from@),
            ),
            final(self).same_frame(*old(self)),
    {
        proof {
            use_type_invariant(from);
            use_type_invariant(to);
        }
        let moved = self.remove(from);
        let q = match moved {
            Some(q) => q,
            None => {
                proof {
                    assert(false);
                }
                Piece(Color::White, Role::Pawn)
            },
        };
        proof {
            if to@ != from@ {
                assert(self.piece_at(to@) == old(self).piece_at(to@));
            } else {
                assert(self.piece_at(to@) is None);
            }
        }
        let captured = self.replace(to, q);
        proof {
            assert(self.squares() =~= old(self).squares().update(from@, None).update(
                to@,
                old(self).piece_at(from@),
            ));
        }
        captured
    }
}

/// The piece of the starting position on square `i`, as executable code.
fn starting_piece_at(i: u8) -> (p: Option<Piece>)
    requires
        i < 64,
    ensures
        p == starting_piece(i as int),
{
    if i == 0 || i == 7 {
        Some(Piece(Color::White, Role::Rook))
    } else if i == 1 || i == 6 {
        Some(Piece(Color::White, Role::Knight))
    } else if i == 2 || i == 5 {
        Some(Piece(Color::White, Role::Bishop))
    } else if i == 3 {
        Some(Piece(Color::White, Role::Queen))
    } else if i == 4 {
        Some(Piece(Color::White, Role::King))
    } else if 8 <= i && i < 16 {
        Some(Piece(Color::White, Role::Pawn))
    } else if 48 <= i && i < 56 {
        Some(Piece(Color::Black, Role::Pawn))
    } else if i == 56 || i == 63 {
        Some(Piece(Color::Black, Role::Rook))
    } else if i == 57 || i == 62 {
        Some(Piece(Color::Black, Role::Knight))
    } else if i == 58 || i == 61 {
        Some(Piece(Color::Black, Role::Bishop))
    } else if i == 59 {
        Some(Piece(Color::Black, Role::Queen))
    } else if i == 60 {
        Some(Piece(Color::Black, Role::King))
    } else {
        None
    }
}

/// Bit patterns of the starting position's occupancy masks.
proof fn lemma_starting_masks()
    ensures
        forall|i: int| 0 <= i < 64 ==> (#[trigger] u64_bit(0xFFFFu64, i) <==> i < 16),
        forall|i: int| 0 <= i < 64 ==> (#[trigger] u64_bit(0xFFFF_0000_0000_0000u64, i) <==> i >= 48),
        forall|i: int|
            0 <= i < 64 ==> (#[trigger] u64_bit(0x00FF_0000_0000_FF00u64, i) <==> (8 <= i < 16 || 48
                <= i < 56)),
        forall|i: int|
            0 <= i < 64 ==> (#[trigger] u64_bit(0x4200_0000_0000_0042u64, i) <==> (i == 1 || i == 6
                || i == 57 || i == 62)),
        forall|i: int|
            0 <= i < 64 ==> (#[trigger] u64_bit(0x2400_0000_0000_0024u64, i) <==> (i == 2 || i == 5
                || i == 58 || i == 61)),
        forall|i: int|
            0 <= i < 64 ==> (#[trigger] u64_bit(0x8100_0000_0000_0081u64, i) <==> (i == 0 || i == 7
                || i == 56 || i == 63)),
        forall|i: int|
            0 <= i < 64 ==> (#[trigger] u64_bit(0x0800_0000_0000_0008u64, i) <==> (i == 3 || i
                == 59)),
{
    assert forall|i: int| 0 <= i < 64 implies (#[trigger] u64_bit(0xFFFFu64, i) <==> i < 16) by {
        let j = i as u64;
        assert(((0xFFFFu64 >> j) & 1u64 == 1u64) <==> j < 16) by (bit_vector)
            requires
                j < 64,
        ;
    }
    assert forall|i: int|
        0 <= i < 64 implies (#[trigger] u64_bit(0xFFFF_0000_0000_0000u64, i) <==> i >= 48) by {
        let j = i as u64;
        assert(((0xFFFF_0000_0000_0000u64 >> j) & 1u64 == 1u64) <==> j >= 48) by (bit_vector)
            requires
                j < 64,
        ;
    }
    assert forall|i: int|
        0 <= i < 64 implies (#[trigger] u64_bit(0x00FF_0000_0000_FF00u64, i) <==> (8 <= i < 16 || 48
        <= i < 56)) by {
        let j = i as u64;
        assert(((0x00FF_0000_0000_FF00u64 >> j) & 1u64 == 1u64) <==> (8 <= j < 16 || 48 <= j < 56))
            by (bit_vector)
            requires
                j < 64,
        ;
    }
    assert forall|i: int|
        0 <= i < 64 implies (#[trigger] u64_bit(0x4200_0000_0000_0042u64, i) <==> (i == 1 || i == 6
        || i == 57 || i == 62)) by {
        let j = i as u64;
        assert(((0x4200_0000_0000_0042u64 >> j) & 1u64 == 1u64) <==> (j == 1 || j == 6 || j == 57
            || j == 62)) by (bit_vector)
            requires
                j < 64,
        ;
    }
    assert forall|i: int|
        0 <= i < 64 implies (#[trigger] u64_bit(0x2400_0000_0000_0024u64, i) <==> (i == 2 || i == 5
        || i == 58 || i == 61)) by {
        let j = i as u64;
        assert(((0x2400_0000_0000_0024u64 >> j) & 1u64 == 1u64) <==> (j == 2 || j == 5 || j == 58
            || j == 61)) by (bit_vector)
            requires
                j < 64,
        ;
    }
    assert forall|i: int|
        0 <= i < 64 implies (#[trigger] u64_bit(0x8100_0000_0000_0081u64, i) <==> (i == 0 || i == 7
        || i == 56 || i == 63)) by {
        let j = i as u64;
        assert(((0x8100_0000_0000_0081u64 >> j) & 1u64 == 1u64) <==> (j == 0 || j == 7 || j == 56
            || j == 63)) by (bit_vector)
            requires
                j < 64,
        ;
    }
    assert forall|i: int|
        0 <= i < 64 implies (#[trigger] u64_bit(0x0800_0000_0000_0008u64, i) <==> (i == 3 || i
        == 59)) by {
        let j = i as u64;
        assert(((0x0800_0000_0000_0008u64 >> j) & 1u64 == 1u64) <==> (j == 3 || j == 59))
            by (bit_vector)
            requires
                j < 64,
        ;
    }
}

/// A well-formed board is determined by its mailbox, kings, side to move
/// and castling rights: the bitboards are a derived, cached view of the
/// mailbox.
pub proof fn lemma_same_state_eq(b1: Board, b2: Board)
    requires
        b1.wf(),
        b2.wf(),
        b1.squares() == b2.squares(),
        b1.king_sq(Color::White) == b2.king_sq(Color::White),
        b1.king_sq(Color::Black) == b2.king_sq(Color::Black),
        b1.side_to_move() == b2.side_to_move(),
        b1.spec_castling() == b2.spec_castling(),
    ensures
        b1 == b2,
{
    lemma_mailbox_view_injective(b1.pieces, b2.pieces);
    assert forall|c: Color| #[trigger] b1.color_bb(c) == b2.color_bb(c) by {
        assert forall|i: int| 0 <= i < 64 implies (b1.color_bb(c).has(i) <==> b2.color_bb(c).has(
            i,
        )) by {
            assert(b1.color_bb(c).has(i) <==> holds_color(b1.piece_at(i), c));
            assert(b2.color_bb(c).has(i) <==> holds_color(b2.piece_at(i), c));
        }
        lemma_bitboard_ext(b1.color_bb(c), b2.color_bb(c));
    }
    assert forall|r: Role| r != Role::King implies #[trigger] b1.role_bb(r) == b2.role_bb(r) by {
        assert forall|i: int| 0 <= i < 64 implies (b1.role_bb(r).has(i) <==> b2.role_bb(r).has(
            i,
        )) by {
            assert(b1.role_bb(r).has(i) <==> holds_role(b1.piece_at(i), r));
            assert(b2.role_bb(r).has(i) <==> holds_role(b2.piece_at(i), r));
        }
        lemma_bitboard_ext(b1.role_bb(r), b2.role_bb(r));
    }
    lemma_square_view_injective(b1.white_king, b2.white_king);
    lemma_square_view_injective(b1.black_king, b2.black_king);
    assert(b1.color_bb(Color::White) == b2.color_bb(Color::White));
    assert(b1.color_bb(Color::Black) == b2.color_bb(Color::Black));
    assert(b1.role_bb(Role::Pawn) == b2.role_bb(Role::Pawn));
    assert(b1.role_bb(Role::Knight) == b2.role_bb(Role::Knight));
    assert(b1.role_bb(Role::Bishop) == b2.role_bb(Role::Bishop));
    assert(b1.role_bb(Role::Rook) == b2.role_bb(Role::Rook));
    assert(b1.role_bb(Role::Queen) == b2.role_bb(Role::Queen));
}

/// Re-establishes the board invariant after moving one side's king
/// bookkeeping from its old square to `s`.
proof fn lemma_king_set_wf(pre: Board, post: Board, c: Color, s: int)
    requires
        pre.wf(),
        0 <= s < 64,
        pre.piece_at(s) is None || s == pre.king_sq(c),
        post.squares() == pre.squares().update(pre.king_sq(c), None).update(
            s,
            Some(Piece(c, Role::King)),
        ),
        post.king_sq(c) == s,
        post.king_sq(c.other()) == pre.king_sq(c.other()),
        forall|r: Role| r != Role::King ==> post.role_bb(r) == pre.role_bb(r),
        forall|i: int|
            0 <= i < 64 ==> (#[trigger] post.color_bb(c).has(i) <==> ((pre.color_bb(c).has(i) && i
                != pre.king_sq(c)) || i == s)),
        post.color_bb(c.other()) == pre.color_bb(c.other()),
    ensures
        post.wf(),
{
    let k = pre.king_sq(c);
    let o = c.other();
    assert(pre.piece_at(k) == Some(Piece(c, Role::King)));
    assert(pre.piece_at(pre.king_sq(o)) == Some(Piece(o, Role::King)));
    assert(pre.king_sq(o) != k);
    assert(pre.king_sq(o) != s);
    assert forall|c2: Color, i: int|
        0 <= i < 64 implies (#[trigger] post.color_bb(c2).has(i) <==> holds_color(
        post.piece_at(i),
        c2,
    )) by {
        assert(pre.color_bb(c2).has(i) <==> holds_color(pre.piece_at(i), c2));
        if c2 != c {
            assert(post.color_bb(c2) == pre.color_bb(c2));
        }
    }
    assert forall|r: Role, i: int|
        r != Role::King && 0 <= i < 64 implies (#[trigger] post.role_bb(r).has(i) <==> holds_role(
        post.piece_at(i),
        r,
    )) by {
        assert(pre.role_bb(r).has(i) <==> holds_role(pre.piece_at(i), r));
        assert(post.role_bb(r) == pre.role_bb(r));
    }
    assert forall|c2: Color, i: int|
        #![trigger post.piece_at(i), post.king_sq(c2)]
        0 <= i < 64 implies ((post.piece_at(i) == Some(Piece(c2, Role::King))) <==> i
        == post.king_sq(c2)) by {
        assert((pre.piece_at(i) == Some(Piece(c2, Role::King))) <==> i == pre.king_sq(c2));
    }
}

/// Re-establishes the board invariant after writing a non-king piece onto
/// an empty square.
proof fn lemma_piece_set_wf(pre: Board, post: Board, p: Piece, s: int)
    requires
        pre.wf(),
        0 <= s < 64,
        pre.piece_at(s) is None,
        p.1 != Role::King,
        post.squares() == pre.squares().update(s, Some(p)),
        post.king_sq(Color::White) == pre.king_sq(Color::White),
        post.king_sq(Color::Black) == pre.king_sq(Color::Black),
        forall|i: int|
            0 <= i < 64 ==> (#[trigger] post.color_bb(p.0).has(i) <==> (pre.color_bb(p.0).has(i)
                || i == s)),
        post.color_bb(p.0.other()) == pre.color_bb(p.0.other()),
        forall|i: int|
            0 <= i < 64 ==> (#[trigger] post.role_bb(p.1).has(i) <==> (pre.role_bb(p.1).has(i) || i
                == s)),
        forall|r2: Role|
            r2 != p.1 && r2 != Role::King ==> post.role_bb(r2) == pre.role_bb(r2),
    ensures
        post.wf(),
{
    assert forall|c2: Color, i: int|
        0 <= i < 64 implies (#[trigger] post.color_bb(c2).has(i) <==> holds_color(
        post.piece_at(i),
        c2,
    )) by {
        assert(pre.color_bb(c2).has(i) <==> holds_color(pre.piece_at(i), c2));
        if c2 != p.0 {
            assert(post.color_bb(c2) == pre.color_bb(c2));
        }
    }
    assert forall|r: Role, i: int|
        r != Role::King && 0 <= i < 64 implies (#[trigger] post.role_bb(r).has(i) <==> holds_role(
        post.piece_at(i),
        r,
    )) by {
        assert(pre.role_bb(r).has(i) <==> holds_role(pre.piece_at(i), r));
        if r != p.1 {
            assert(post.role_bb(r) == pre.role_bb(r));
        }
    }
    assert forall|c2: Color, i: int|
        #![trigger post.piece_at(i), post.king_sq(c2)]
        0 <= i < 64 implies ((post.piece_at(i) == Some(Piece(c2, Role::King))) <==> i
        == post.king_sq(c2)) by {
        assert((pre.piece_at(i) == Some(Piece(c2, Role::King))) <==> i == pre.king_sq(c2));
        assert(pre.piece_at(pre.king_sq(c2)) == Some(Piece(c2, Role::King)));
    }
}

/// Re-establishes the board invariant after clearing a non-king piece off
/// its square.
proof fn lemma_remove_wf(pre: Board, post: Board, q: Piece, s: int)
    requires
        pre.wf(),
        0 <= s < 64,
        pre.piece_at(s) == Some(q),
        q.1 != Role::King,
        post.squares() == pre.squares().update(s, None),
        post.king_sq(Color::White) == pre.king_sq(Color::White),
        post.king_sq(Color::Black) == pre.king_sq(Color::Black),
        forall|i: int|
            0 <= i < 64 ==> (#[trigger] post.color_bb(q.0).has(i) <==> (pre.color_bb(q.0).has(i)
                && i != s)),
        post.color_bb(q.0.other()) == pre.color_bb(q.0.other()),
        forall|i: int|
            0 <= i < 64 ==> (#[trigger] post.role_bb(q.1).has(i) <==> (pre.role_bb(q.1).has(i) && i
                != s)),
        forall|r2: Role|
            r2 != q.1 && r2 != Role::King ==> post.role_bb(r2) == pre.role_bb(r2),
    ensures
        post.wf(),
{
    assert forall|c2: Color, i: int|
        0 <= i < 64 implies (#[trigger] post.color_bb(c2).has(i) <==> holds_color(
        post.piece_at(i),
        c2,
    )) by {
        assert(pre.color_bb(c2).has(i) <==> holds_color(pre.piece_at(i), c2));
        if c2 != q.0 {
            assert(post.color_bb(c2) == pre.color_bb(c2));
        }
    }
    assert forall|r: Role, i: int|
        r != Role::King && 0 <= i < 64 implies (#[trigger] post.role_bb(r).has(i) <==> holds_role(
        post.piece_at(i),
        r,
    )) by {
        assert(pre.role_bb(r).has(i) <==> holds_role(pre.piece_at(i), r));
        if r != q.1 {
            assert(post.role_bb(r) == pre.role_bb(r));
        }
    }
    assert forall|c2: Color, i: int|
        #![trigger post.piece_at(i), post.king_sq(c2)]
        0 <= i < 64 implies ((post.piece_at(i) == Some(Piece(c2, Role::King))) <==> i
        == post.king_sq(c2)) by {
        assert((pre.piece_at(i) == Some(Piece(c2, Role::King))) <==> i == pre.king_sq(c2));
        assert(pre.piece_at(pre.king_sq(c2)) == Some(Piece(c2, Role::King)));
    }
}

impl Flippable for Board {
    /// Every component of `self` is the flipped image of the matching
    /// component of `other`: bitboards and king squares mirrored around the
    /// board center, the mailbox reversed, castling rights and the side to
    /// move swapped — all in lockstep.
    open spec fn is_flip_of(self, other: Board) -> bool {
        &&& forall|c: Color| (#[trigger] self.color_bb(c)).is_flip_of(other.color_bb(c))
        &&& forall|r: Role|
            r != Role::King ==> (#[trigger] self.role_bb(r)).is_flip_of(other.role_bb(r))
        &&& forall|c: Color| #[trigger] self.king_sq(c) == 63 - other.king_sq(c)
        &&& self.squares().len() == 64
        &&& forall|i: int| 0 <= i < 64 ==> #[trigger] self.piece_at(i) == other.piece_at(63 - i)
        &&& self.spec_castling().is_flip_of(other.spec_castling())
        &&& self.side_to_move() == other.side_to_move().other()
    }

    fn flipped(&self) -> (r: Self) {
        let r = Board {
            turn: self.turn.flipped(),
            white: self.white.flipped(),
            black: self.black.flipped(),
            pawns: self.pawns.flipped(),
            knights: self.knights.flipped(),
            bishops: self.bishops.flipped(),
            rooks: self.rooks.flipped(),
            queens: self.queens.flipped(),
            white_king: self.white_king.flipped(),
            black_king: self.black_king.flipped(),
            pieces: self.pieces.flipped(),
            castling: self.castling.flipped(),
        };
        proof {
            r.pieces.lemma_len();
            assert forall|c: Color| (#[trigger] r.color_bb(c)).is_flip_of(self.color_bb(c)) by {
                if c == Color::White {
                    assert(r.color_bb(c) == r.white);
                } else {
                    assert(r.color_bb(c) == r.black);
                }
            }
            assert forall|r2: Role|
                r2 != Role::King implies (#[trigger] r.role_bb(r2)).is_flip_of(
                self.role_bb(r2),
            ) by {
                if r2 == Role::Pawn {
                    assert(r.role_bb(r2) == r.pawns);
                } else if r2 == Role::Knight {
                    assert(r.role_bb(r2) == r.knights);
                } else if r2 == Role::Bishop {
                    assert(r.role_bb(r2) == r.bishops);
                } else if r2 == Role::Rook {
                    assert(r.role_bb(r2) == r.rooks);
                } else {
                    assert(r.role_bb(r2) == r.queens);
                }
            }
        }
        r
    }
}

/// Flipping a board twice gives the board back.
pub proof fn lemma_board_flip_involution(a: Board, b: Board, c: Board)
    requires
        b.is_flip_of(a),
        c.is_flip_of(b),
    ensures
        c == a,
{
    assert forall|c2: Color| #[trigger] c.color_bb(c2) == a.color_bb(c2) by {
        lemma_bitboard_flip_involution(a.color_bb(c2), b.color_bb(c2), c.color_bb(c2));
    }
    assert(c.color_bb(Color::White) == a.color_bb(Color::White));
    assert(c.color_bb(Color::Black) == a.color_bb(Color::Black));
    assert forall|r: Role| r != Role::King implies #[trigger] c.role_bb(r) == a.role_bb(r) by {
        lemma_bitboard_flip_involution(a.role_bb(r), b.role_bb(r), c.role_bb(r));
    }
    assert(c.role_bb(Role::Pawn) == a.role_bb(Role::Pawn));
    assert(c.role_bb(Role::Knight) == a.role_bb(Role::Knight));
    assert(c.role_bb(Role::Bishop) == a.role_bb(Role::Bishop));
    assert(c.role_bb(Role::Rook) == a.role_bb(Role::Rook));
    assert(c.role_bb(Role::Queen) == a.role_bb(Role::Queen));
    assert(c.king_sq(Color::White) == a.king_sq(Color::White));
    assert(c.king_sq(Color::Black) == a.king_sq(Color::Black));
    lemma_square_view_injective(c.white_king, a.white_king);
    lemma_square_view_injective(c.black_king, a.black_king);
    a.pieces.lemma_len();
    c.pieces.lemma_len();
    assert forall|i: int| 0 <= i < 64 implies c.squares()[i] == a.squares()[i] by {
        assert(c.piece_at(i) == b.piece_at(63 - i));
        assert(b.piece_at(63 - i) == a.piece_at(i));
    }
    assert(c.squares() =~= a.squares());
    lemma_mailbox_view_injective(c.pieces, a.pieces);
    lemma_castling_flip_involution(a.spec_castling(), b.spec_castling(), c.spec_castling());
}

/// Flipping a well-formed board yields a well-formed board: the flip moves
/// the mailbox, the bitboards and the king bookkeeping in lockstep.
pub proof fn lemma_flip_preserves_wf(pre: Board, post: Board)
    requires
        pre.wf(),
        post.is_flip_of(pre),
    ensures
        post.wf(),
{
    assert forall|c: Color, i: int|
        0 <= i < 64 implies (#[trigger] post.color_bb(c).has(i) <==> holds_color(
        post.piece_at(i),
        c,
    )) by {
        assert(post.color_bb(c).has(i) <==> pre.color_bb(c).has(63 - i));
        assert(pre.color_bb(c).has(63 - i) <==> holds_color(pre.piece_at(63 - i), c));
        assert(post.piece_at(i) == pre.piece_at(63 - i));
    }
    assert forall|r: Role, i: int|
        r != Role::King && 0 <= i < 64 implies (#[trigger] post.role_bb(r).has(i) <==> holds_role(
        post.piece_at(i),
        r,
    )) by {
        assert(post.role_bb(r).has(i) <==> pre.role_bb(r).has(63 - i));
        assert(pre.role_bb(r).has(63 - i) <==> holds_role(pre.piece_at(63 - i), r));
        assert(post.piece_at(i) == pre.piece_at(63 - i));
    }
    assert forall|c: Color, i: int|
        #![trigger post.piece_at(i), post.king_sq(c)]
        0 <= i < 64 implies ((post.piece_at(i) == Some(Piece(c, Role::King))) <==> i == post.king_sq(
        c,
    )) by {
        assert(post.piece_at(i) == pre.piece_at(63 - i));
        assert((pre.piece_at(63 - i) == Some(Piece(c, Role::King))) <==> 63 - i == pre.king_sq(c));
        assert(post.king_sq(c) == 63 - pre.king_sq(c));
    }
}

/// No square is occupied by both colors.
pub proof fn lemma_colors_disjoint(b: Board)
    requires
        b.wf(),
    ensures
        forall|i: int|
            0 <= i < 64 ==> !(#[trigger] b.color_bb(Color::White).has(i) && b.color_bb(
                Color::Black,
            ).has(i)),
{
    assert forall|i: int|
        0 <= i < 64 implies !(#[trigger] b.color_bb(Color::White).has(i) && b.color_bb(
        Color::Black,
    ).has(i)) by {
        assert(b.color_bb(Color::White).has(i) <==> holds_color(b.piece_at(i), Color::White));
        assert(b.color_bb(Color::Black).has(i) <==> holds_color(b.piece_at(i), Color::Black));
    }
}

/// A square is held by one of the colors exactly when it carries a piece
/// of some non-king role or is one of the two king squares: the role
/// bitboards plus the king scalars cover the color bitboards exactly.
pub proof fn lemma_occupancy_partition(b: Board)
    requires
        b.wf(),
    ensures
        forall|i: int|
            0 <= i < 64 ==> ((b.color_bb(Color::White).has(i) || b.color_bb(Color::Black).has(i))
                <==> ((exists|r: Role| r != Role::King && (#[trigger] b.role_bb(r)).has(i)) || i
                == b.king_sq(Color::White) || i == b.king_sq(Color::Black))),
{
    assert forall|i: int|
        0 <= i < 64 implies ((b.color_bb(Color::White).has(i) || b.color_bb(Color::Black).has(i))
        <==> ((exists|r: Role| r != Role::King && (#[trigger] b.role_bb(r)).has(i)) || i
        == b.king_sq(Color::White) || i == b.king_sq(Color::Black))) by {
        assert(b.color_bb(Color::White).has(i) <==> holds_color(b.piece_at(i), Color::White));
        assert(b.color_bb(Color::Black).has(i) <==> holds_color(b.piece_at(i), Color::Black));
        if b.color_bb(Color::White).has(i) || b.color_bb(Color::Black).has(i) {
            let q = b.piece_at(i)->Some_0;
            if q.1 == Role::King {
                assert(b.piece_at(i) == Some(Piece(q.0, Role::King)));
                assert(i == b.king_sq(q.0));
            } else {
                assert(b.role_bb(q.1).has(i) <==> holds_role(b.piece_at(i), q.1));
                assert(q.1 != Role::King && b.role_bb(q.1).has(i));
            }
        }
        if exists|r: Role| r != Role::King && (#[trigger] b.role_bb(r)).has(i) {
            let w = choose|r: Role| r != Role::King && (#[trigger] b.role_bb(r)).has(i);
            assert(b.role_bb(w).has(i) <==> holds_role(b.piece_at(i), w));
            let q = b.piece_at(i)->Some_0;
            assert(holds_color(b.piece_at(i), q.0));
        }
        if i == b.king_sq(Color::White) {
            assert(b.piece_at(i) == Some(Piece(Color::White, Role::King)));
        }
        if i == b.king_sq(Color::Black) {
            assert(b.piece_at(i) == Some(Piece(Color::Black, Role::King)));
        }
    }
}

} // verus!
