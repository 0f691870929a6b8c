use chessboard::bits::{Bitboard, Square};
use chessboard::board::bits as bb;
use chessboard::board::{File, Flippable, Rank};

#[test]
fn empty_and_full() {
    let e = Bitboard::empty();
    let f = Bitboard::full();
    assert!(e.is_empty());
    assert!(!e.is_any());
    assert_eq!(e.count(), 0);
    assert!(!f.is_empty());
    assert!(f.is_any());
    assert_eq!(f.count(), 64);
    for i in 0u8..64 {
        assert!(!e.contains(Square::new(i)));
        assert!(f.contains(Square::new(i)));
    }
}

#[test]
fn add_and_remove_report_changes() {
    let mut b = Bitboard::empty();
    let s = Square::new(17);
    assert!(!b.contains(s));
    assert!(b.add(s));
    assert!(b.contains(s));
    assert!(!b.add(s));
    assert_eq!(b.count(), 1);
    assert!(b.remove(s));
    assert!(!b.contains(s));
    assert!(!b.remove(s));
    assert!(b.is_empty());
}

#[test]
fn count_is_population_count() {
    let mut b = Bitboard::new(0);
    for i in [0u8, 9, 27, 63] {
        b.add(Square::new(i));
    }
    assert_eq!(b.count(), 4);
    assert_eq!(Bitboard::new(0b1011).count(), 3);
}

#[test]
fn smallest_and_largest_square() {
    assert!(Bitboard::empty().smallest_square().is_none());
    assert!(Bitboard::empty().largest_square().is_none());
    let b = Bitboard::new(0b10_0100);
    assert_eq!(b.smallest_square().unwrap(), Square::new(2));
    assert_eq!(b.largest_square().unwrap(), Square::new(5));
    let single = Bitboard::from(Square::new(33));
    assert_eq!(single.smallest_square().unwrap(), Square::new(33));
    assert_eq!(single.largest_square().unwrap(), Square::new(33));
    assert_eq!(Bitboard::full().smallest_square().unwrap(), Square::new(0));
    assert_eq!(Bitboard::full().largest_square().unwrap(), Square::new(63));
}

#[test]
fn set_algebra_laws_hold_on_samples() {
    let a = Bitboard::new(0xDEAD_BEEF_0123_4567);
    let b = Bitboard::new(0x0F0F_F0F0_AAAA_5555);
    let c = Bitboard::new(0x8000_0000_0000_0001);
    // commutativity
    assert_eq!(a.union(b), b.union(a));
    assert_eq!(a.intersect(b), b.intersect(a));
    assert_eq!(a.symmetric_difference(b), b.symmetric_difference(a));
    // associativity
    assert_eq!(a.union(b).union(c), a.union(b.union(c)));
    assert_eq!(a.intersect(b).intersect(c), a.intersect(b.intersect(c)));
    assert_eq!(
        a.symmetric_difference(b).symmetric_difference(c),
        a.symmetric_difference(b.symmetric_difference(c))
    );
    // complement laws
    assert_eq!(a.intersect(a.complement()), Bitboard::empty());
    assert_eq!(a.union(a.complement()), Bitboard::full());
    // De Morgan
    assert_eq!(a.intersect(b).complement(), a.complement().union(b.complement()));
    assert_eq!(a.union(b).complement(), a.complement().intersect(b.complement()));
}

#[test]
fn bitboard_flip_involution() {
    let samples = [
        0u64,
        1,
        0xFFFF,
        0xDEAD_BEEF_0123_4567,
        u64::MAX,
    ];
    for v in samples {
        let b = Bitboard::new(v);
        assert_eq!(b.flipped().flipped(), b);
        let mut m = b;
        m.flip();
        m.flip();
        assert_eq!(m, b);
    }
}

#[test]
fn flipping_a_singleton_mirrors_the_square() {
    for i in 0u8..64 {
        let s = Square::new(i);
        assert_eq!(Bitboard::from(s).flipped(), Bitboard::from(s.flipped()));
    }
}

#[test]
fn file_and_rank_masks() {
    let fa = Bitboard::from(File::A);
    for i in 0u8..64 {
        assert_eq!(fa.contains(Square::new(i)), i % 8 == 0);
    }
    let fh = Bitboard::from(File::H);
    for i in 0u8..64 {
        assert_eq!(fh.contains(Square::new(i)), i % 8 == 7);
    }
    let r1 = Bitboard::from(Rank::First);
    for i in 0u8..64 {
        assert_eq!(r1.contains(Square::new(i)), i / 8 == 0);
    }
    let r8 = Bitboard::from(Rank::Eighth);
    for i in 0u8..64 {
        assert_eq!(r8.contains(Square::new(i)), i / 8 == 7);
    }
    assert_eq!(fa.count(), 8);
    assert_eq!(r1.count(), 8);
}

#[test]
fn module_bitboard_variant_behaves_alike() {
    let e = bb::Bitboard::empty();
    let f = bb::Bitboard::full();
    assert!(e.is_empty());
    assert!(f.is_any());
    assert!(!e.is_singular());
    assert!(bb::Bitboard::from_square(bb::Square::new(5)).is_singular());
    assert_eq!(e.union(f), f);
    assert_eq!(e.intersect(f), e);
    assert_eq!(f.complement(), e);
    assert_eq!(f.symmetric_difference(f), e);
    let v = bb::Bitboard::new(0x0123_4567_89AB_CDEF);
    assert_eq!(v.flipped().flipped(), v);
    let fa = bb::Bitboard::from_file(File::A);
    let r4 = bb::Bitboard::from_rank(Rank::Fourth);
    assert_eq!(fa.intersect(r4), bb::Bitboard::from_square(bb::Square::new(24)));
}
