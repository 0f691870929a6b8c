use chessboard::bits::{Bitboard, Square};
use chessboard::board::bits as bb;
use chessboard::board::{File, Flippable, Rank};

#[test]
fn coords_bijection_all_files_and_ranks() {
    for f in 0u8..8 {
        for r in 0u8..8 {
            let s = Square::from_coords(File::new(f), Rank::new(r));
            let (f2, r2) = s.coords();
            assert_eq!(f2, File::new(f));
            assert_eq!(r2, Rank::new(r));
            assert_eq!(s.index(), (r * 8 + f) as usize);
        }
    }
}

#[test]
fn index_round_trip_all_squares() {
    for i in 0u8..64 {
        assert_eq!(Square::new(i).index(), i as usize);
        assert_eq!(Square::new_unchecked(i).index_unchecked(), i as usize);
    }
}

#[test]
fn file_and_rank_of_square() {
    let s = Square::new(42);
    assert_eq!(s.file(), File::C);
    assert_eq!(s.rank(), Rank::Sixth);
    assert_eq!(Square::new(0).file(), File::A);
    assert_eq!(Square::new(0).rank(), Rank::First);
    assert_eq!(Square::new(63).file(), File::H);
    assert_eq!(Square::new(63).rank(), Rank::Eighth);
}

#[test]
fn file_rank_new_unchecked_matches_new() {
    for x in 0u8..8 {
        assert_eq!(File::new_unchecked(x), File::new(x));
        assert_eq!(Rank::new_unchecked(x), Rank::new(x));
        assert_eq!(File::new(x).index(), x);
        assert_eq!(Rank::new(x).index(), x);
    }
}

#[test]
fn square_flip_antisymmetry() {
    assert_eq!(Square::new(0).flipped(), Square::new(63));
    for i in 0u8..64 {
        assert_eq!(Square::new(i).flipped().index(), (63 - i) as usize);
    }
}

#[test]
fn square_flip_involution() {
    for i in 0u8..64 {
        let s = Square::new(i);
        assert_eq!(s.flipped().flipped(), s);
        let mut t = s;
        t.flip();
        t.flip();
        assert_eq!(t, s);
    }
}

#[test]
fn singleton_round_trip_all_squares() {
    for i in 0u8..64 {
        let s = Square::new(i);
        let b = Bitboard::from(s);
        assert!(b.is_singular());
        assert_eq!(b.count(), 1);
        let back = Square::try_from_bitboard(b).unwrap();
        assert_eq!(back, s);
    }
}

#[test]
fn nonsingular_bitboards_are_rejected() {
    assert!(Square::try_from_bitboard(Bitboard::empty()).is_err());
    let mut two = Bitboard::empty();
    two.add(Square::new(3));
    two.add(Square::new(40));
    assert!(!two.is_singular());
    assert!(Square::try_from_bitboard(two).is_err());
    assert!(Square::try_from_bitboard(Bitboard::full()).is_err());
}

#[test]
fn module_square_variant_round_trips() {
    for f in 0u8..8 {
        for r in 0u8..8 {
            let s = bb::Square::from_file_and_rank(File::new(f), Rank::new(r));
            let (f2, r2) = s.coords();
            assert_eq!(f2, File::new(f));
            assert_eq!(r2, Rank::new(r));
            assert_eq!(s.index(), (r * 8 + f) as usize);
        }
    }
    for i in 0u8..64 {
        let s = bb::Square::new(i);
        assert_eq!(s.flipped().flipped(), s);
        assert_eq!(s.flipped().index(), (63 - i) as usize);
        let b = bb::Bitboard::from_square(s);
        assert!(b.is_singular());
        assert_eq!(bb::Square::from_singular_bitboard(b), s);
    }
}
