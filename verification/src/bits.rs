//! Squares and bitboards: the 64-cell geometry of the chessboard and the
//! 64-bit occupancy sets over it.

use vstd::prelude::*;

use crate::board::{File, Flippable, Rank};

verus! {

/// Bit `i` of the word `v` is set.  Bitboard contracts are stated with this
/// predicate: bit `i` set means square `i` is in the set.
pub open spec fn u64_bit(v: u64, i: int) -> bool {
    0 <= i < 64 && (v >> (i as u64)) & 1u64 == 1u64
}

/// Number of set bits of `v` strictly below position `n`.
pub open spec fn count_bits_below(v: u64, n: int) -> nat
    decreases n,
{
    if n <= 0 {
        0
    } else {
        count_bits_below(v, n - 1) + (if u64_bit(v, n - 1) {
            1nat
        } else {
            0nat
        })
    }
}

/// Number of set bits of `v`: the population count.
pub open spec fn count_bits(v: u64) -> nat {
    count_bits_below(v, 64)
}

/// Bits of a union: a bit is set in `a | b` exactly when it is set in `a`
/// or in `b`.
pub proof fn lemma_or_bits(a: u64, b: u64)
    ensures
        forall|i: int|
            0 <= i < 64 ==> (#[trigger] u64_bit(a | b, i) <==> u64_bit(a, i) || u64_bit(b, i)),
{
    assert forall|i: int|
        0 <= i < 64 implies (#[trigger] u64_bit(a | b, i) <==> u64_bit(a, i) || u64_bit(
        b,
        i,
    )) by {
        let j = i as u64;
        assert((((a | b) >> j) & 1u64 == 1u64) <==> (((a >> j) & 1u64 == 1u64) || ((b >> j) & 1u64
            == 1u64))) by (bit_vector);
    }
}

/// Bits of an intersection.
pub proof fn lemma_and_bits(a: u64, b: u64)
    ensures
        forall|i: int|
            0 <= i < 64 ==> (#[trigger] u64_bit(a & b, i) <==> u64_bit(a, i) && u64_bit(b, i)),
{
    assert forall|i: int|
        0 <= i < 64 implies (#[trigger] u64_bit(a & b, i) <==> u64_bit(a, i) && u64_bit(
        b,
        i,
    )) by {
        let j = i as u64;
        assert((((a & b) >> j) & 1u64 == 1u64) <==> (((a >> j) & 1u64 == 1u64) && ((b >> j) & 1u64
            == 1u64))) by (bit_vector);
    }
}

/// Bits of a symmetric difference.
pub proof fn lemma_xor_bits(a: u64, b: u64)
    ensures
        forall|i: int|
            0 <= i < 64 ==> (#[trigger] u64_bit(a ^ b, i) <==> (u64_bit(a, i) != u64_bit(b, i))),
{
    assert forall|i: int|
        0 <= i < 64 implies (#[trigger] u64_bit(a ^ b, i) <==> (u64_bit(a, i) != u64_bit(
        b,
        i,
    ))) by {
        let j = i as u64;
        assert((((a ^ b) >> j) & 1u64 == 1u64) <==> (((a >> j) & 1u64 == 1u64) != ((b >> j) & 1u64
            == 1u64))) by (bit_vector);
    }
}

/// Bits of a complement.
pub proof fn lemma_not_bits(a: u64)
    ensures
        forall|i: int| 0 <= i < 64 ==> (#[trigger] u64_bit(!a, i) <==> !u64_bit(a, i)),
{
    assert forall|i: int| 0 <= i < 64 implies (#[trigger] u64_bit(!a, i) <==> !u64_bit(a, i)) by {
        let j = i as u64;
        assert((((!a) >> j) & 1u64 == 1u64) <==> !((a >> j) & 1u64 == 1u64)) by (bit_vector)
            requires
                j < 64,
        ;
    }
}

/// The word with no bits set, and the word with every bit set.
pub proof fn lemma_zero_full_bits()
    ensures
        forall|i: int| 0 <= i < 64 ==> !(#[trigger] u64_bit(0u64, i)),
        forall|i: int| 0 <= i < 64 ==> #[trigger] u64_bit(0xFFFF_FFFF_FFFF_FFFFu64, i),
{
    assert forall|i: int| 0 <= i < 64 implies !(#[trigger] u64_bit(0u64, i)) by {
        let j = i as u64;
        assert((0u64 >> j) & 1u64 == 0u64) by (bit_vector);
    }
    assert forall|i: int| 0 <= i < 64 implies #[trigger] u64_bit(0xFFFF_FFFF_FFFF_FFFFu64, i) by {
        let j = i as u64;
        assert((0xFFFF_FFFF_FFFF_FFFFu64 >> j) & 1u64 == 1u64) by (bit_vector)
            requires
                j < 64,
        ;
    }
}

/// `1 << s` has exactly bit `s` set, and is a power of two.
pub proof fn lemma_shift_bit(s: u64)
    requires
        s < 64,
    ensures
        forall|i: int| 0 <= i < 64 ==> (#[trigger] u64_bit(1u64 << s, i) <==> i == s),
        (1u64 << s) != 0,
        (1u64 << s) & (((1u64 << s) - 1) as u64) == 0,
{
    assert forall|i: int| 0 <= i < 64 implies (#[trigger] u64_bit(1u64 << s, i) <==> i == s) by {
        let j = i as u64;
        assert((((1u64 << s) >> j) & 1u64 == 1u64) <==> j == s) by (bit_vector)
            requires
                s < 64,
                j < 64,
        ;
    }
    assert((1u64 << s) != 0 && (1u64 << s) & (((1u64 << s) - 1) as u64) == 0) by (bit_vector)
        requires
            s < 64,
    ;
}

/// A nonzero power of two with bit `t` set is exactly `1 << t`.
pub proof fn lemma_pow2_single_bit(v: u64, t: u64)
    requires
        v != 0,
        v & (((v - 1) as u64)) == 0,
        t < 64,
        u64_bit(v, t as int),
    ensures
        v == 1u64 << t,
{
    assert((v != 0 && v & (((v - 1) as u64)) == 0 && t < 64 && (v >> t) & 1u64 == 1u64) ==> v
        == 1u64 << t) by (bit_vector);
}

/// Two words with the same bits are equal.
pub proof fn lemma_bits_eq(a: u64, b: u64)
    requires
        forall|i: int| 0 <= i < 64 ==> (u64_bit(a, i) <==> u64_bit(b, i)),
    ensures
        a == b,
{
    let c = a ^ b;
    if c != 0 {
        broadcast use vstd::std_specs::bits::axiom_u64_trailing_zeros;

        let t = vstd::std_specs::bits::u64_trailing_zeros(c) as int;
        assert(u64_bit(c, t));
        lemma_xor_bits(a, b);
        assert(false);
    }
    assert(a ^ b == 0 ==> a == b) by (bit_vector);
}

/// A nonzero word has a set bit.
pub proof fn lemma_nonzero_has_bit(v: u64)
    requires
        v != 0,
    ensures
        exists|i: int| u64_bit(v, i),
{
    broadcast use vstd::std_specs::bits::axiom_u64_trailing_zeros;

    let t = vstd::std_specs::bits::u64_trailing_zeros(v) as int;
    assert(u64_bit(v, t));
}

/// The monad of the chessboard upon which chess pieces exist.
///
/// Squares index into a chessboard via rank-major order: square `i` sits on
/// file `i % 8` and rank `i / 8`, so rank 0 holds squares 0 through 7 and
/// rank 7 holds squares 56 through 63.
///
/// Squares are *color-agnostic*: viewing the board from the other side maps
/// index `i` to index `63 - i`, and the same storage layout serves either
/// perspective as long as board and square data are flipped together.
#[derive(PartialEq, Eq, Structural, PartialOrd, Ord, Debug, Copy, Clone)]
pub struct Square(u8);

impl View for Square {
    type V = int;

    closed spec fn view(&self) -> int {
        self.0 as int
    }
}

impl Square {
    /// A square's index is always in range: `0 <= s@ < 64`.
    #[verifier::type_invariant]
    pub open spec fn wf(self) -> bool {
        0 <= self@ < 64
    }

    /// Constructs a [`Square`] from a [`u8`], which must be in range.
    pub fn new(value: u8) -> (s: Self)
        requires
            value < 64,
        ensures
            s@ == value,
    {
        Square(value)
    }

    /// Constructs a [`Square`] from a [`u8`] without a range check; the
    /// caller guarantees validity.
    pub fn new_unchecked(value: u8) -> (s: Self)
        requires
            value < 64,
        ensures
            s@ == value,
    {
        Square(value)
    }

    /// Constructs a [`Square`] from a [`File`] and [`Rank`].
    pub fn from_coords(f: File, r: Rank) -> (s: Self)
        ensures
            s@ == r.as_int() * 8 + f.as_int(),
    {
        let file_index = f.index();
        let rank_index = r.index();
        Square(rank_index * 8 + file_index)
    }

    /// Gets the [`File`] of a [`Square`].
    pub fn file(self) -> (f: File)
        ensures
            f.as_int() == self@ % 8,
    {
        File::new(self.0 % 8)
    }

    /// Gets the [`Rank`] of a [`Square`].
    pub fn rank(self) -> (r: Rank)
        ensures
            r.as_int() == self@ / 8,
    {
        proof {
            use_type_invariant(self);
        }
        Rank::new(self.0 / 8)
    }

    /// Returns a tuple of the [`File`] and [`Rank`].
    pub fn coords(self) -> (fr: (File, Rank))
        ensures
            fr.0.as_int() == self@ % 8,
            fr.1.as_int() == self@ / 8,
    {
        (self.file(), self.rank())
    }

    /// Returns the index: the inner value of the square, always below 64.
    pub fn index(&self) -> (i: usize)
        ensures
            i == self@,
            i < 64,
    {
        proof {
            use_type_invariant(*self);
        }
        self.0 as usize
    }

    /// Returns the index without asserting its range.
    pub fn index_unchecked(&self) -> (i: usize)
        ensures
            i == self@,
    {
        self.0 as usize
    }
}

/// Coordinates round-trip through the rank-major square index: the square
/// built from file `fi` and rank `ri` has exactly those coordinates.
pub proof fn lemma_coords_bijection(fi: int, ri: int)
    requires
        0 <= fi < 8,
        0 <= ri < 8,
    ensures
        (ri * 8 + fi) % 8 == fi,
        (ri * 8 + fi) / 8 == ri,
        0 <= ri * 8 + fi < 64,
{
}

/// Two squares whose singleton masks coincide are the same square: a
/// singular bitboard determines the square it was built from.
pub proof fn lemma_singleton_round_trip(a: Square, b: Square)
    requires
        0 <= a@ < 64,
        0 <= b@ < 64,
        (1u64 << (a@ as u64)) == (1u64 << (b@ as u64)),
    ensures
        a == b,
{
    lemma_shift_bit(a@ as u64);
    lemma_shift_bit(b@ as u64);
    assert(u64_bit(1u64 << (a@ as u64), a@));
    assert(u64_bit(1u64 << (b@ as u64), a@));
    lemma_square_view_injective(a, b);
}

impl Default for Square {
    /// The default square is index 0.
    fn default() -> (s: Self)
        ensures
            s@ == 0,
    {
        Square(0)
    }
}

impl Flippable for Square {
    /// Flipping negates the index around the board center: `self` sits at
    /// `63 - other`.
    open spec fn is_flip_of(self, other: Square) -> bool {
        self@ == 63 - other@
    }

    fn flipped(&self) -> (r: Self) {
        proof {
            use_type_invariant(*self);
        }
        Square(63 - self.0)
    }
}

/// Two squares with the same index are the same square.
pub proof fn lemma_square_view_injective(a: Square, b: Square)
    requires
        a@ == b@,
    ensures
        a == b,
{
    assert(a.0 == b.0);
}

/// Flipping a square twice gives the square back.
pub proof fn lemma_square_flip_involution(a: Square, b: Square, c: Square)
    requires
        b.is_flip_of(a),
        c.is_flip_of(b),
    ensures
        c == a,
{
    assert(c.0 == a.0);
}

/// A set of occupied squares.
///
/// A bitboard keeps track of which squares are occupied by some piece. They
/// can also be used to describe possible moves or attacks for a piece. Bit
/// `i` of the word stands for square `i`.
#[derive(PartialEq, Eq, Structural, PartialOrd, Ord, Debug, Copy, Clone)]
pub struct Bitboard(pub u64);

impl View for Bitboard {
    type V = u64;

    open spec fn view(&self) -> u64 {
        self.0
    }
}

impl Bitboard {
    /// Square `i` is in the set.
    pub open spec fn has(self, i: int) -> bool {
        u64_bit(self@, i)
    }

    /// The number of squares in the set.
    pub open spec fn spec_count(self) -> nat {
        count_bits(self@)
    }

    /// The set holds exactly one square.
    pub open spec fn spec_singular(self) -> bool {
        exists|i: int| 0 <= i < 64 && self@ == #[trigger] (1u64 << (i as u64))
    }

    /// Constructs a new bitboard given a 64-bit integer.
    pub fn new(value: u64) -> (b: Self)
        ensures
            b@ == value,
    {
        Bitboard(value)
    }

    /// Constructs an empty bitboard.
    pub fn empty() -> (b: Self)
        ensures
            b@ == 0,
            forall|i: int| !b.has(i),
    {
        proof {
            lemma_zero_full_bits();
        }
        Bitboard(0)
    }

    /// Constructs a full bitboard.
    pub fn full() -> (b: Self)
        ensures
            b@ == 0xFFFF_FFFF_FFFF_FFFFu64,
            forall|i: int| 0 <= i < 64 ==> b.has(i),
    {
        proof {
            lemma_zero_full_bits();
        }
        Bitboard(0xFFFF_FFFF_FFFF_FFFF)
    }

    /// Checks whether a bitboard is empty.
    pub fn is_empty(self) -> (r: bool)
        ensures
            r == (self@ == 0),
            r <==> (forall|i: int| !self.has(i)),
    {
        proof {
            if self.0 == 0 {
                lemma_zero_full_bits();
                assert forall|i: int| !self.has(i) by {
                    assert(!u64_bit(0u64, i));
                }
            } else {
                lemma_nonzero_has_bit(self.0);
                let w = choose|i: int| u64_bit(self.0, i);
                assert(self.has(w));
            }
        }
        self.0 == 0
    }

    /// Checks whether a bitboard is non-empty.
    pub fn is_any(self) -> (r: bool)
        ensures
            r == (self@ != 0),
            r <==> (exists|i: int| self.has(i)),
    {
        proof {
            if self.0 == 0 {
                lemma_zero_full_bits();
                assert forall|i: int| !self.has(i) by {
                    assert(!u64_bit(0u64, i));
                }
            } else {
                lemma_nonzero_has_bit(self.0);
                let w = choose|i: int| u64_bit(self.0, i);
                assert(self.has(w));
            }
        }
        self.0 != 0
    }

    /// Checks whether a bitboard holds exactly one square.
    pub fn is_singular(self) -> (r: bool)
        ensures
            r == self.spec_singular(),
    {
        let r = self.0 != 0 && (self.0 & (self.0 - 1)) == 0;
        proof {
            broadcast use vstd::std_specs::bits::axiom_u64_trailing_zeros;

            if r {
                let t = vstd::std_specs::bits::u64_trailing_zeros(self.0) as u64;
                assert(u64_bit(self.0, t as int));
                lemma_pow2_single_bit(self.0, t);
            }
            if self.spec_singular() {
                let i = choose|i: int| 0 <= i < 64 && self@ == #[trigger] (1u64 << (i as u64));
                lemma_shift_bit(i as u64);
            }
        }
        r
    }

    /// Returns the number of occupied squares in the bitboard.
    pub fn count(self) -> (n: usize)
        ensures
            n == self.spec_count(),
            n <= 64,
    {
        let mut n: usize = 0;
        let mut i: u64 = 0;
        while i < 64
            invariant
                i <= 64,
                n == count_bits_below(self.0, i as int),
                n <= i,
            decreases 64 - i,
        {
            if (self.0 >> i) & 1u64 == 1u64 {
                n = n + 1;
            }
            i = i + 1;
        }
        n
    }

    /// Returns the occupied square, if any, closest to index 63.
    pub fn largest_square(self) -> (r: Option<Square>)
        ensures
            r is Some <==> self@ != 0,
            r matches Some(s) ==> self.has(s@) && (forall|j: int| s@ < j < 64 ==> !self.has(j)),
    {
        if self.0 == 0 {
            None
        } else {
            proof {
                broadcast use vstd::std_specs::bits::axiom_u64_leading_zeros;

            }
            let lz = self.0.leading_zeros();
            let s = Square::new_unchecked(63 - lz as u8);
            proof {
                let z = vstd::std_specs::bits::u64_leading_zeros(self.0);
                assert(u64_bit(self.0, 63 - z)) by {
                    assert((self.0 >> ((63 - z) as u64)) & 1u64 != 0u64);
                    lemma_bit_is_zero_or_one(self.0, (63 - z) as u64);
                }
                assert forall|j: int| s@ < j < 64 implies !self.has(j) by {
                    assert((self.0 >> (j as u64)) & 1u64 == 0u64);
                }
            }
            Some(s)
        }
    }

    /// Returns the occupied square, if any, closest to index 0.
    pub fn smallest_square(self) -> (r: Option<Square>)
        ensures
            r is Some <==> self@ != 0,
            r matches Some(s) ==> self.has(s@) && (forall|j: int| 0 <= j < s@ ==> !self.has(j)),
    {
        if self.0 == 0 {
            None
        } else {
            proof {
                broadcast use vstd::std_specs::bits::axiom_u64_trailing_zeros;

            }
            let tz = self.0.trailing_zeros();
            let s = Square::new_unchecked(tz as u8);
            proof {
                assert forall|j: int| 0 <= j < s@ implies !self.has(j) by {
                    assert((self.0 >> (j as u64)) & 1u64 == 0u64);
                }
            }
            Some(s)
        }
    }

    /// Returns whether the square is occupied.
    pub fn contains(self, s: Square) -> (r: bool)
        ensures
            r == self.has(s@),
    {
        proof {
            use_type_invariant(s);
        }
        let m = Bitboard::from(s);
        let c = m.intersect(self);
        let r = c.is_any();
        proof {
            lemma_shift_bit(s@ as u64);
            assert(m@ == 1u64 << (s@ as u64));
            if r {
                let w = choose|i: int| c.has(i);
                assert(u64_bit(1u64 << (s@ as u64), w));
                assert(w == s@);
            } else {
                if self.has(s@) {
                    assert(u64_bit(1u64 << (s@ as u64), s@));
                    assert(c.has(s@));
                }
            }
        }
        r
    }

    /// Adds a square to the bitboard.
    ///
    /// If the square wasn't in the set, `true` is returned.
    /// If the square was in the set, `false` is returned.
    pub fn add(&mut self, s: Square) -> (changed: bool)
        ensures
            changed == !old(self).has(s@),
            final(self)@ == old(self)@ | (1u64 << (s@ as u64)),
            forall|i: int| #[trigger] final(self).has(i) <==> old(self).has(i) || i == s@,
    {
        proof {
            use_type_invariant(s);
            lemma_shift_bit(s@ as u64);
            lemma_or_bits(self.0, 1u64 << (s@ as u64));
        }
        let was_in = self.contains(s);
        if !was_in {
            self.0 = self.0 | (1u64 << (s.index() as u64));
            true
        } else {
            proof {
                lemma_bits_eq(old(self)@ | (1u64 << (s@ as u64)), old(self)@);
            }
            false
        }
    }

    /// Removes a square from the bitboard.
    ///
    /// If the square was in the set, `true` is returned.
    /// If the square wasn't in the set, `false` is returned.
    pub fn remove(&mut self, s: Square) -> (changed: bool)
        ensures
            changed == old(self).has(s@),
            final(self)@ == old(self)@ & !(1u64 << (s@ as u64)),
            forall|i: int| #[trigger] final(self).has(i) <==> old(self).has(i) && i != s@,
    {
        proof {
            use_type_invariant(s);
            lemma_shift_bit(s@ as u64);
            lemma_not_bits(1u64 << (s@ as u64));
            lemma_and_bits(self.0, !(1u64 << (s@ as u64)));
        }
        let was_in = self.contains(s);
        if was_in {
            self.0 = self.0 & !(1u64 << (s.index() as u64));
            true
        } else {
            proof {
                lemma_bits_eq(old(self)@ & !(1u64 << (s@ as u64)), old(self)@);
            }
            false
        }
    }

    /// Union of two bitboards.
    pub fn union(self, rhs: Bitboard) -> (r: Bitboard)
        ensures
            r@ == self@ | rhs@,
            forall|i: int| #[trigger] r.has(i) <==> self.has(i) || rhs.has(i),
    {
        proof {
            lemma_or_bits(self.0, rhs.0);
        }
        Bitboard(self.0 | rhs.0)
    }

    /// Intersection of two bitboards.
    pub fn intersect(self, rhs: Bitboard) -> (r: Bitboard)
        ensures
            r@ == self@ & rhs@,
            forall|i: int| #[trigger] r.has(i) <==> self.has(i) && rhs.has(i),
    {
        proof {
            lemma_and_bits(self.0, rhs.0);
        }
        Bitboard(self.0 & rhs.0)
    }

    /// Symmetric difference of two bitboards.
    pub fn symmetric_difference(self, rhs: Bitboard) -> (r: Bitboard)
        ensures
            r@ == self@ ^ rhs@,
            forall|i: int| #[trigger] r.has(i) <==> (self.has(i) != rhs.has(i)),
    {
        proof {
            lemma_xor_bits(self.0, rhs.0);
        }
        Bitboard(self.0 ^ rhs.0)
    }

    /// Complement of a bitboard.
    pub fn complement(self) -> (r: Bitboard)
        ensures
            r@ == !self@,
            forall|i: int| 0 <= i < 64 ==> (#[trigger] r.has(i) <==> !self.has(i)),
    {
        proof {
            lemma_not_bits(self.0);
        }
        Bitboard(!self.0)
    }
}

/// Two bitboards holding the same squares are the same bitboard.
pub proof fn lemma_bitboard_ext(x: Bitboard, y: Bitboard)
    requires
        forall|i: int| 0 <= i < 64 ==> (x.has(i) <==> y.has(i)),
    ensures
        x == y,
{
    assert forall|i: int| 0 <= i < 64 implies (u64_bit(x@, i) <==> u64_bit(y@, i)) by {
        assert(x.has(i) <==> y.has(i));
    }
    lemma_bits_eq(x@, y@);
}

impl Default for Bitboard {
    /// The default bitboard is the empty set.
    fn default() -> (b: Self)
        ensures
            b@ == 0,
    {
        Bitboard(0)
    }
}

/// A bit of a word is either clear or set.
pub proof fn lemma_bit_is_zero_or_one(v: u64, j: u64)
    ensures
        (v >> j) & 1u64 == 0u64 || (v >> j) & 1u64 == 1u64,
{
    assert((v >> j) & 1u64 == 0u64 || (v >> j) & 1u64 == 1u64) by (bit_vector);
}

/// Set algebra over bitboards: union, intersection and symmetric difference
/// are commutative and associative; a set and its complement intersect in
/// the empty set and unite to the full set; and De Morgan's laws hold.
pub proof fn lemma_set_algebra(x: Bitboard, y: Bitboard, z: Bitboard)
    ensures
        x@ | y@ == y@ | x@,
        x@ & y@ == y@ & x@,
        x@ ^ y@ == y@ ^ x@,
        (x@ | y@) | z@ == x@ | (y@ | z@),
        (x@ & y@) & z@ == x@ & (y@ & z@),
        (x@ ^ y@) ^ z@ == x@ ^ (y@ ^ z@),
        x@ & !x@ == 0,
        x@ | !x@ == 0xFFFF_FFFF_FFFF_FFFFu64,
        !(x@ & y@) == (!x@ | !y@),
        !(x@ | y@) == (!x@ & !y@),
{
    let a = x@;
    let b = y@;
    let c = z@;
    assert((a | b == b | a) && (a & b == b & a) && (a ^ b == b ^ a) && ((a | b) | c == a | (b | c))
        && ((a & b) & c == a & (b & c)) && ((a ^ b) ^ c == a ^ (b ^ c)) && (a & !a == 0) && (a | !a
        == 0xFFFF_FFFF_FFFF_FFFFu64) && (!(a & b) == (!a | !b)) && (!(a | b) == (!a & !b)))
        by (bit_vector);
}

impl From<Square> for Bitboard {
    /// Constructs a bitboard holding exactly the given square.
    fn from(s: Square) -> (b: Bitboard) {
        proof {
            use_type_invariant(s);
        }
        Bitboard(1u64 << (s.index() as u64))
    }
}

impl vstd::std_specs::convert::FromSpecImpl<Square> for Bitboard {
    open spec fn obeys_from_spec() -> bool {
        true
    }

    open spec fn from_spec(s: Square) -> Bitboard {
        Bitboard(1u64 << (s@ as u64))
    }
}

/// The mask of all squares on one file: bit `i` is set exactly when square
/// `i` lies on file `f`.
pub proof fn lemma_file_mask_bits(f: u64)
    requires
        f < 8,
    ensures
        forall|i: int|
            0 <= i < 64 ==> (#[trigger] u64_bit(0x0101_0101_0101_0101u64 << f, i) <==> i % 8 == f),
{
    assert forall|i: int|
        0 <= i < 64 implies (#[trigger] u64_bit(0x0101_0101_0101_0101u64 << f, i) <==> i % 8
        == f) by {
        let j = i as u64;
        assert((((0x0101_0101_0101_0101u64 << f) >> j) & 1u64 == 1u64) <==> j % 8 == f)
            by (bit_vector)
            requires
                f < 8,
                j < 64,
        ;
    }
}

/// The mask of all squares on one rank: bit `i` is set exactly when square
/// `i` lies on rank `r`.
pub proof fn lemma_rank_mask_bits(r: u64)
    requires
        r < 8,
    ensures
        forall|i: int| 0 <= i < 64 ==> (#[trigger] u64_bit(0xFFu64 << (8 * r), i) <==> i / 8 == r),
{
    assert forall|i: int|
        0 <= i < 64 implies (#[trigger] u64_bit(0xFFu64 << (8 * r), i) <==> i / 8 == r) by {
        let j = i as u64;
        assert((((0xFFu64 << (8 * r)) >> j) & 1u64 == 1u64) <==> j / 8 == r) by (bit_vector)
            requires
                r < 8,
                j < 64,
        ;
    }
}

impl From<File> for Bitboard {
    /// Constructs a bitboard holding every square of the given file.
    fn from(f: File) -> (b: Bitboard) {
        Bitboard(0x0101_0101_0101_0101u64 << (f.index() as u64))
    }
}

impl vstd::std_specs::convert::FromSpecImpl<File> for Bitboard {
    open spec fn obeys_from_spec() -> bool {
        true
    }

    open spec fn from_spec(f: File) -> Bitboard {
        Bitboard(0x0101_0101_0101_0101u64 << (f.as_int() as u64))
    }
}

impl From<Rank> for Bitboard {
    /// Constructs a bitboard holding every square of the given rank.
    fn from(r: Rank) -> (b: Bitboard) {
        Bitboard(0xFFu64 << (8 * r.index() as u64))
    }
}

impl vstd::std_specs::convert::FromSpecImpl<Rank> for Bitboard {
    open spec fn obeys_from_spec() -> bool {
        true
    }

    open spec fn from_spec(r: Rank) -> Bitboard {
        Bitboard(0xFFu64 << ((8 * r.as_int()) as u64))
    }
}

impl Square {
    /// Recovers the square from a singular bitboard.
    ///
    /// Succeeds exactly when the bitboard has one set bit; a bitboard with
    /// zero or several set bits reports an error instead.
    pub fn try_from_bitboard(b: Bitboard) -> (r: Result<Square, &'static str>)
        ensures
            r is Ok <==> b.spec_singular(),
            r matches Ok(s) ==> b@ == 1u64 << (s@ as u64) && b.has(s@),
    {
        if b.is_singular() {
            proof {
                broadcast use vstd::std_specs::bits::axiom_u64_trailing_zeros;

                let i = choose|i: int| 0 <= i < 64 && b@ == #[trigger] (1u64 << (i as u64));
                lemma_shift_bit(i as u64);
            }
            let tz = b.0.trailing_zeros();
            let s = Square::new_unchecked(tz as u8);
            proof {
                lemma_pow2_single_bit(b.0, s@ as u64);
            }
            Ok(s)
        } else {
            Err("Square can only be made from singleton bitboard")
        }
    }
}

/// Reverses the 64 bits of a word: bit `i` of the result is bit `63 - i`
/// of the argument.
pub fn reverse_word(v: u64) -> (r: u64)
    ensures
        forall|i: int| 0 <= i < 64 ==> (#[trigger] u64_bit(r, i) <==> u64_bit(v, 63 - i)),
{
    proof {
        lemma_zero_full_bits();
    }
    let mut out: u64 = 0;
    let mut i: u64 = 0;
    while i < 64
        invariant
            i <= 64,
            forall|j: int|
                0 <= j < 64 ==> (#[trigger] u64_bit(out, j) <==> (63 - j < i && u64_bit(
                    v,
                    63 - j,
                ))),
        decreases 64 - i,
    {
        if (v >> i) & 1u64 == 1u64 {
            proof {
                lemma_shift_bit((63 - i) as u64);
                lemma_or_bits(out, 1u64 << ((63 - i) as u64));
            }
            out = out | (1u64 << (63 - i));
        }
        i = i + 1;
    }
    out
}

impl Flippable for Bitboard {
    /// Each square of `self` is the mirrored image of a square of `other`.
    open spec fn is_flip_of(self, other: Bitboard) -> bool {
        forall|i: int| 0 <= i < 64 ==> (#[trigger] self.has(i) <==> other.has(63 - i))
    }

    fn flipped(&self) -> (r: Self) {
        Bitboard(reverse_word(self.0))
    }
}

/// Flipping a bitboard twice gives the bitboard back.
pub proof fn lemma_bitboard_flip_involution(a: Bitboard, b: Bitboard, c: Bitboard)
    requires
        b.is_flip_of(a),
        c.is_flip_of(b),
    ensures
        c == a,
{
    assert forall|i: int| 0 <= i < 64 implies (u64_bit(c@, i) <==> u64_bit(a@, i)) by {
        assert(c.has(i) <==> b.has(63 - i));
        assert(b.has(63 - i) <==> a.has(i));
    }
    lemma_bits_eq(c@, a@);
    assert(c.0 == a.0);
}

} // verus!
