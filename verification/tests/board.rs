use chessboard::bits::Square;
use chessboard::board::Mailbox;
use chessboard::board::{Board, Castling, CastlingRights, Color, Flippable, Piece, Role};

/// Rebuilds the square-by-square picture from the bitboards and kings and
/// compares it against the mailbox: the reference oracle for the board's
/// dual-representation invariant.
fn check_consistent(b: &Board) {
    let roles = [Role::Pawn, Role::Knight, Role::Bishop, Role::Rook, Role::Queen];
    for i in 0u8..64 {
        let s = Square::new(i);
        match b.get(s) {
            Some(Piece(c, r)) => {
                let other = if c == Color::White { Color::Black } else { Color::White };
                assert!(b.color_get(c).contains(s));
                assert!(!b.color_get(other).contains(s));
                if r == Role::King {
                    assert_eq!(b.king_get(c), s);
                    for r2 in roles {
                        assert!(!b.role_get(r2).unwrap().contains(s));
                    }
                } else {
                    for r2 in roles {
                        assert_eq!(b.role_get(r2).unwrap().contains(s), r2 == r);
                    }
                }
            }
            None => {
                assert!(!b.color_get(Color::White).contains(s));
                assert!(!b.color_get(Color::Black).contains(s));
                for r2 in roles {
                    assert!(!b.role_get(r2).unwrap().contains(s));
                }
            }
        }
    }
    // every king square really holds that side's king
    for c in [Color::White, Color::Black] {
        assert_eq!(b.get(b.king_get(c)), Some(Piece(c, Role::King)));
    }
}

#[test]
fn starting_position_layout() {
    let b = Board::new();
    assert_eq!(b.turn(), Color::White);
    assert_eq!(b.castling.get(Color::White), CastlingRights::Both);
    assert_eq!(b.castling.get(Color::Black), CastlingRights::Both);
    assert_eq!(b.get(Square::new(0)), Some(Piece(Color::White, Role::Rook)));
    assert_eq!(b.get(Square::new(4)), Some(Piece(Color::White, Role::King)));
    assert_eq!(b.get(Square::new(12)), Some(Piece(Color::White, Role::Pawn)));
    assert_eq!(b.get(Square::new(28)), None);
    assert_eq!(b.get(Square::new(59)), Some(Piece(Color::Black, Role::Queen)));
    assert_eq!(b.get(Square::new(60)), Some(Piece(Color::Black, Role::King)));
    assert_eq!(b.king_get(Color::White), Square::new(4));
    assert_eq!(b.king_get(Color::Black), Square::new(60));
    assert_eq!(b.color_get(Color::White).count(), 16);
    assert_eq!(b.color_get(Color::Black).count(), 16);
    check_consistent(&b);
}

#[test]
fn move_to_empty_square() {
    let mut b = Board::new();
    let from = Square::new(12);
    let to = Square::new(28);
    let captured = b.move_piece(from, to);
    assert_eq!(captured, None);
    assert_eq!(b.get(to), Some(Piece(Color::White, Role::Pawn)));
    assert_eq!(b.get(from), None);
    check_consistent(&b);
}

#[test]
fn move_captures_occupant() {
    let mut b = Board::new();
    let from = Square::new(12);
    let to = Square::new(28);
    assert_eq!(b.replace(to, Piece(Color::Black, Role::Pawn)), None);
    let captured = b.move_piece(from, to);
    assert_eq!(captured, Some(Piece(Color::Black, Role::Pawn)));
    assert_eq!(b.get(to), Some(Piece(Color::White, Role::Pawn)));
    assert_eq!(b.get(from), None);
    check_consistent(&b);
}

#[test]
fn king_relocation_bypasses_role_bitboards() {
    let mut b = Board::new();
    // re-asserting the king on its own square changes nothing
    let before = b;
    b.king_set(Color::White, Square::new(4));
    assert_eq!(b, before);
    assert_eq!(b.king_get(Color::White), Square::new(4));
    // indexing roles with King is rejected
    assert!(b.role_get(Role::King).is_none());
    // relocate the king to an emptied square
    assert_eq!(b.remove(Square::new(12)), Some(Piece(Color::White, Role::Pawn)));
    let roles_before = [
        b.role_get(Role::Pawn).unwrap(),
        b.role_get(Role::Knight).unwrap(),
        b.role_get(Role::Bishop).unwrap(),
        b.role_get(Role::Rook).unwrap(),
        b.role_get(Role::Queen).unwrap(),
    ];
    b.king_set(Color::White, Square::new(12));
    assert_eq!(b.king_get(Color::White), Square::new(12));
    assert_eq!(b.get(Square::new(12)), Some(Piece(Color::White, Role::King)));
    assert_eq!(b.get(Square::new(4)), None);
    let roles_after = [
        b.role_get(Role::Pawn).unwrap(),
        b.role_get(Role::Knight).unwrap(),
        b.role_get(Role::Bishop).unwrap(),
        b.role_get(Role::Rook).unwrap(),
        b.role_get(Role::Queen).unwrap(),
    ];
    assert_eq!(roles_before, roles_after);
    check_consistent(&b);
}

#[test]
fn place_only_overwrites_occupied_squares() {
    let mut b = Board::new();
    let knight = Piece(Color::White, Role::Knight);
    // empty square: nothing happens
    let before = b;
    assert!(!b.place(Square::new(28), knight));
    assert_eq!(b, before);
    // occupied non-king square: the piece is overwritten
    assert!(b.place(Square::new(12), knight));
    assert_eq!(b.get(Square::new(12)), Some(knight));
    check_consistent(&b);
    // a king square is left as it is
    let before = b;
    assert!(b.place(Square::new(4), Piece(Color::White, Role::King)));
    assert_eq!(b, before);
    check_consistent(&b);
}

#[test]
fn replace_returns_previous_occupant() {
    let mut b = Board::new();
    let queen = Piece(Color::Black, Role::Queen);
    assert_eq!(b.replace(Square::new(28), queen), None);
    assert_eq!(b.get(Square::new(28)), Some(queen));
    let rook = Piece(Color::White, Role::Rook);
    assert_eq!(b.replace(Square::new(28), rook), Some(queen));
    assert_eq!(b.get(Square::new(28)), Some(rook));
    check_consistent(&b);
    // replacing a king square with the same king leaves the board alone
    let before = b;
    assert_eq!(b.replace(Square::new(4), Piece(Color::White, Role::King)), None);
    assert_eq!(b, before);
    // a king may be re-placed onto an empty square: relocation
    assert_eq!(b.remove(Square::new(11)), Some(Piece(Color::White, Role::Pawn)));
    assert_eq!(b.replace(Square::new(11), Piece(Color::White, Role::King)), None);
    assert_eq!(b.king_get(Color::White), Square::new(11));
    assert_eq!(b.get(Square::new(4)), None);
    check_consistent(&b);
}

#[test]
fn remove_rejects_kings_and_empty_squares() {
    let mut b = Board::new();
    assert_eq!(b.remove(Square::new(28)), None);
    assert_eq!(b.remove(Square::new(4)), None);
    assert_eq!(b.get(Square::new(4)), Some(Piece(Color::White, Role::King)));
    assert_eq!(b.remove(Square::new(8)), Some(Piece(Color::White, Role::Pawn)));
    assert_eq!(b.get(Square::new(8)), None);
    check_consistent(&b);
}

#[test]
fn invariant_survives_a_mutation_sequence() {
    let mut b = Board::new();
    assert_eq!(b.move_piece(Square::new(12), Square::new(28)), None);
    assert_eq!(b.move_piece(Square::new(51), Square::new(35)), None);
    b.replace(Square::new(35), Piece(Color::White, Role::Pawn));
    b.remove(Square::new(1));
    b.place(Square::new(6), Piece(Color::Black, Role::Bishop));
    b.remove(Square::new(13));
    b.king_set(Color::White, Square::new(13));
    b.castling.set(Color::White, CastlingRights::Neither);
    check_consistent(&b);
}

#[test]
fn board_flip_involution() {
    let b = Board::new();
    assert_eq!(b.flipped().flipped(), b);
    let mut c = b;
    c.move_piece(Square::new(12), Square::new(28));
    assert_eq!(c.flipped().flipped(), c);
    let mut d = c;
    d.flip();
    d.flip();
    assert_eq!(d, c);
}

#[test]
fn starting_white_bitboard_flips_onto_black() {
    let b = Board::new();
    assert_eq!(b.color_get(Color::White).flipped(), b.color_get(Color::Black));
    assert_eq!(b.color_get(Color::Black).flipped(), b.color_get(Color::White));
}

#[test]
fn flip_swaps_turn_castling_and_kings() {
    let mut b = Board::new();
    b.castling.set(Color::White, CastlingRights::Kingside);
    let f = b.flipped();
    assert_eq!(f.turn(), Color::Black);
    assert_eq!(f.castling.get(Color::Black), CastlingRights::Kingside);
    assert_eq!(f.castling.get(Color::White), CastlingRights::Both);
    assert_eq!(f.king_get(Color::White), Square::new(59));
    assert_eq!(f.king_get(Color::Black), Square::new(3));
    assert_eq!(f.get(Square::new(63)), Some(Piece(Color::White, Role::Rook)));
    check_consistent(&f);
}

#[test]
fn castling_accessors() {
    let mut c = Castling::new();
    assert_eq!(c.get(Color::White), CastlingRights::Neither);
    assert_eq!(c.get(Color::Black), CastlingRights::Neither);
    c.set(Color::White, CastlingRights::Queenside);
    assert_eq!(c.get(Color::White), CastlingRights::Queenside);
    assert_eq!(c.get(Color::Black), CastlingRights::Neither);
    let d = Castling::default();
    assert_eq!(d.get(Color::White), CastlingRights::Both);
    assert_eq!(d.get(Color::Black), CastlingRights::Both);
    let f = c.flipped();
    assert_eq!(f.get(Color::Black), CastlingRights::Queenside);
    assert_eq!(f.get(Color::White), CastlingRights::Neither);
    assert_eq!(f.flipped(), c);
    c.clear();
    assert_eq!(c.get(Color::White), CastlingRights::Neither);
    assert_eq!(c.get(Color::Black), CastlingRights::Neither);
}

#[test]
fn mailbox_set_get_and_flip() {
    let mut m = Mailbox::new();
    for i in 0u8..64 {
        assert_eq!(m.get(Square::new(i)), None);
    }
    let p = Piece(Color::Black, Role::Knight);
    m.set(Square::new(10), Some(p));
    assert_eq!(m.get(Square::new(10)), Some(p));
    let f = m.flipped();
    assert_eq!(f.get(Square::new(53)), Some(p));
    assert_eq!(f.get(Square::new(10)), None);
    assert_eq!(f.flipped(), m);
    m.set(Square::new(10), None);
    assert_eq!(m.get(Square::new(10)), None);
}

#[test]
fn color_flip_swaps_sides() {
    assert_eq!(Color::White.flipped(), Color::Black);
    assert_eq!(Color::Black.flipped(), Color::White);
    assert_eq!(Color::White.flipped().flipped(), Color::White);
}
