//! A self-contained variant of the square and bitboard primitives, scoped
//! to the board module: the same 64-cell geometry, with named constructors
//! for file, rank and singleton masks.

use vstd::prelude::*;

use super::{File, Rank};
use crate::bits::{
    count_bits, lemma_and_bits, lemma_bits_eq, lemma_file_mask_bits, lemma_not_bits, lemma_or_bits,
    lemma_pow2_single_bit, lemma_rank_mask_bits, lemma_shift_bit, lemma_xor_bits,
    lemma_zero_full_bits, lemma_nonzero_has_bit, reverse_word, u64_bit,
};

verus! {

/// One of the 64 board cells, indexed in rank-major order.
#[derive(PartialEq, Eq, Structural, PartialOrd, Ord, Debug, Copy, Clone)]
pub struct Square(u8);

impl View for Square {
    type V = int;

    closed spec fn view(&self) -> int {
        self.0 as int
    }
}

impl Square {
    /// A square's index is always in range: `0 <= s@ < 64`.
    #[verifier::type_invariant]
    pub open spec fn wf(self) -> bool {
        0 <= self@ < 64
    }

    /// Constructs a [`Square`] from a [`u8`], which must be in range.
    pub fn new(value: u8) -> (s: Self)
        requires
            value < 64,
        ensures
            s@ == value,
    {
        Square(value)
    }

    /// Constructs a [`Square`] from a [`u8`] without a range check; the
    /// caller guarantees validity.
    pub fn new_unchecked(value: u8) -> (s: Self)
        requires
            value < 64,
        ensures
            s@ == value,
    {
        Square(value)
    }

    /// Constructs a [`Square`] from a [`File`] and [`Rank`].
    pub fn from_file_and_rank(f: File, r: Rank) -> (s: Self)
        ensures
            s@ == r.as_int() * 8 + f.as_int(),
    {
        let file_index = f.index();
        let rank_index = r.index();
        Square(rank_index * 8 + file_index)
    }

    /// Recovers the square from a bitboard that holds exactly one square.
    pub fn from_singular_bitboard(b: Bitboard) -> (s: Self)
        requires
            b.spec_singular(),
        ensures
            b@ == 1u64 << (s@ as u64),
            b.has(s@),
    {
        proof {
            broadcast use vstd::std_specs::bits::axiom_u64_trailing_zeros;

            let i = choose|i: int| 0 <= i < 64 && b@ == #[trigger] (1u64 << (i as u64));
            lemma_shift_bit(i as u64);
        }
        let tz = b.0.trailing_zeros();
        let s = Square(tz as u8);
        proof {
            lemma_pow2_single_bit(b.0, s@ as u64);
        }
        s
    }

    /// Gets the [`File`] of a [`Square`].
    pub fn file(self) -> (f: File)
        ensures
            f.as_int() == self@ % 8,
    {
        File::new(self.0 % 8)
    }

    /// Gets the [`Rank`] of a [`Square`].
    pub fn rank(self) -> (r: Rank)
        ensures
            r.as_int() == self@ / 8,
    {
        proof {
            use_type_invariant(self);
        }
        Rank::new(self.0 / 8)
    }

    /// Returns a tuple of the [`File`] and [`Rank`].
    pub fn coords(self) -> (fr: (File, Rank))
        ensures
            fr.0.as_int() == self@ % 8,
            fr.1.as_int() == self@ / 8,
    {
        (self.file(), self.rank())
    }

    /// The mirrored square: the index is negated around the board center.
    pub fn flipped(self) -> (r: Self)
        ensures
            r@ == 63 - self@,
    {
        proof {
            use_type_invariant(self);
        }
        Square(63 - self.0)
    }

    /// Returns the index: the inner value of the square, always below 64.
    pub fn index(self) -> (i: usize)
        ensures
            i == self@,
            i < 64,
    {
        proof {
            use_type_invariant(self);
        }
        self.0 as usize
    }
}

/// A set of occupied squares: bit `i` of the word stands for square `i`.
#[derive(PartialEq, Eq, Structural, PartialOrd, Ord, Debug, Copy, Clone)]
pub struct Bitboard(u64);

impl View for Bitboard {
    type V = u64;

    closed spec fn view(&self) -> u64 {
        self.0
    }
}

impl Bitboard {
    /// Square `i` is in the set.
    pub open spec fn has(self, i: int) -> bool {
        u64_bit(self@, i)
    }

    /// The number of squares in the set.
    pub open spec fn spec_count(self) -> nat {
        count_bits(self@)
    }

    /// The set holds exactly one square.
    pub open spec fn spec_singular(self) -> bool {
        exists|i: int| 0 <= i < 64 && self@ == #[trigger] (1u64 << (i as u64))
    }

    /// Constructs a new bitboard given a 64-bit integer.
    pub fn new(value: u64) -> (b: Self)
        ensures
            b@ == value,
    {
        Bitboard(value)
    }

    /// Constructs a bitboard holding exactly the given square.
    pub fn from_square(s: Square) -> (b: Self)
        ensures
            b@ == 1u64 << (s@ as u64),
            forall|i: int| 0 <= i < 64 ==> (#[trigger] b.has(i) <==> i == s@),
    {
        proof {
            use_type_invariant(s);
            lemma_shift_bit(s@ as u64);
        }
        Bitboard(1u64 << (s.0 as u64))
    }

    /// Constructs a bitboard holding every square of the given rank.
    pub fn from_rank(r: Rank) -> (b: Self)
        ensures
            forall|i: int| 0 <= i < 64 ==> (#[trigger] b.has(i) <==> i / 8 == r.as_int()),
    {
        proof {
            lemma_rank_mask_bits(r.as_int() as u64);
        }
        Bitboard(0xFFu64 << (8 * r.index() as u64))
    }

    /// Constructs a bitboard holding every square of the given file.
    pub fn from_file(f: File) -> (b: Self)
        ensures
            forall|i: int| 0 <= i < 64 ==> (#[trigger] b.has(i) <==> i % 8 == f.as_int()),
    {
        proof {
            lemma_file_mask_bits(f.as_int() as u64);
        }
        Bitboard(0x0101_0101_0101_0101u64 << (f.index() as u64))
    }

    /// Constructs an empty bitboard.
    pub fn empty() -> (b: Self)
        ensures
            b@ == 0,
            forall|i: int| !b.has(i),
    {
        proof {
            lemma_zero_full_bits();
        }
        Bitboard(0)
    }

    /// Constructs a full bitboard.
    pub fn full() -> (b: Self)
        ensures
            b@ == 0xFFFF_FFFF_FFFF_FFFFu64,
            forall|i: int| 0 <= i < 64 ==> b.has(i),
    {
        proof {
            lemma_zero_full_bits();
        }
        Bitboard(0xFFFF_FFFF_FFFF_FFFF)
    }

    /// Checks whether a bitboard is empty.
    pub fn is_empty(self) -> (r: bool)
        ensures
            r == (self@ == 0),
            r <==> (forall|i: int| !self.has(i)),
    {
        proof {
            if self.0 == 0 {
                lemma_zero_full_bits();
                assert forall|i: int| !self.has(i) by {
                    assert(!u64_bit(0u64, i));
                }
            } else {
                lemma_nonzero_has_bit(self.0);
                let w = choose|i: int| u64_bit(self.0, i);
                assert(self.has(w));
            }
        }
        self.0 == 0
    }

    /// Checks whether a bitboard is non-empty.
    pub fn is_any(self) -> (r: bool)
        ensures
            r == (self@ != 0),
            r <==> (exists|i: int| self.has(i)),
    {
        proof {
            if self.0 == 0 {
                lemma_zero_full_bits();
                assert forall|i: int| !self.has(i) by {
                    assert(!u64_bit(0u64, i));
                }
            } else {
                lemma_nonzero_has_bit(self.0);
                let w = choose|i: int| u64_bit(self.0, i);
                assert(self.has(w));
            }
        }
        self.0 != 0
    }

    /// Checks whether a bitboard holds exactly one square.
    pub fn is_singular(self) -> (r: bool)
        ensures
            r == self.spec_singular(),
    {
        let r = self.0 != 0 && (self.0 & (self.0 - 1)) == 0;
        proof {
            broadcast use vstd::std_specs::bits::axiom_u64_trailing_zeros;

            if r {
                let t = vstd::std_specs::bits::u64_trailing_zeros(self.0) as u64;
                assert(u64_bit(self.0, t as int));
                lemma_pow2_single_bit(self.0, t);
            }
            if self.spec_singular() {
                let i = choose|i: int| 0 <= i < 64 && self@ == #[trigger] (1u64 << (i as u64));
                lemma_shift_bit(i as u64);
            }
        }
        r
    }

    /// The mirrored bitboard: square `i` of the result is square `63 - i`
    /// of the argument.
    pub fn flipped(self) -> (r: Self)
        ensures
            forall|i: int| 0 <= i < 64 ==> (#[trigger] r.has(i) <==> self.has(63 - i)),
    {
        Bitboard(reverse_word(self.0))
    }

    /// Union of two bitboards.
    pub fn union(self, rhs: Bitboard) -> (r: Bitboard)
        ensures
            r@ == self@ | rhs@,
            forall|i: int| #[trigger] r.has(i) <==> self.has(i) || rhs.has(i),
    {
        proof {
            lemma_or_bits(self.0, rhs.0);
        }
        Bitboard(self.0 | rhs.0)
    }

    /// Intersection of two bitboards.
    pub fn intersect(self, rhs: Bitboard) -> (r: Bitboard)
        ensures
            r@ == self@ & rhs@,
            forall|i: int| #[trigger] r.has(i) <==> self.has(i) && rhs.has(i),
    {
        proof {
            lemma_and_bits(self.0, rhs.0);
        }
        Bitboard(self.0 & rhs.0)
    }

    /// Symmetric difference of two bitboards.
    pub fn symmetric_difference(self, rhs: Bitboard) -> (r: Bitboard)
        ensures
            r@ == self@ ^ rhs@,
            forall|i: int| #[trigger] r.has(i) <==> (self.has(i) != rhs.has(i)),
    {
        proof {
            lemma_xor_bits(self.0, rhs.0);
        }
        Bitboard(self.0 ^ rhs.0)
    }

    /// Complement of a bitboard.
    pub fn complement(self) -> (r: Bitboard)
        ensures
            r@ == !self@,
            forall|i: int| 0 <= i < 64 ==> (#[trigger] r.has(i) <==> !self.has(i)),
    {
        proof {
            lemma_not_bits(self.0);
        }
        Bitboard(!self.0)
    }
}

/// Flipping a bitboard twice gives the bitboard back.
pub proof fn lemma_bitboard_flip_involution(a: Bitboard, b: Bitboard, c: Bitboard)
    requires
        forall|i: int| 0 <= i < 64 ==> (#[trigger] b.has(i) <==> a.has(63 - i)),
        forall|i: int| 0 <= i < 64 ==> (#[trigger] c.has(i) <==> b.has(63 - i)),
    ensures
        c == a,
{
    assert forall|i: int| 0 <= i < 64 implies (u64_bit(c@, i) <==> u64_bit(a@, i)) by {
        assert(c.has(i) <==> b.has(63 - i));
        assert(b.has(63 - i) <==> a.has(i));
    }
    lemma_bits_eq(c@, a@);
    assert(c@ == a@);
}

} // verus!
