use chess_engine::piece::{Piece, PieceColor, PieceType};

#[test]
fn new_piece_has_not_moved() {
    let p = Piece::new(PieceType::Rook, PieceColor::White);
    assert_eq!(p.get_piece_type(), PieceType::Rook);
    assert_eq!(p.get_color(), PieceColor::White);
    assert!(!p.has_moved());
}

#[test]
fn set_has_moved_marks_the_piece() {
    let mut p = Piece::new(PieceType::Knight, PieceColor::Black);
    p.set_has_moved(true);
    assert!(p.has_moved());
    assert_eq!(p.get_piece_type(), PieceType::Knight);
    assert_eq!(p.get_color(), PieceColor::Black);
}

#[test]
fn get_piece_type_mut_changes_the_kind_in_place() {
    let mut p = Piece::new(PieceType::Pawn { en_passant: false }, PieceColor::White);
    let t = p.get_piece_type_mut();
    *t = PieceType::Pawn { en_passant: true };
    assert_eq!(p.get_piece_type(), PieceType::Pawn { en_passant: true });
}

#[test]
fn promote_replaces_a_pawns_kind() {
    let mut p = Piece::new(PieceType::Pawn { en_passant: false }, PieceColor::Black);
    p.set_has_moved(true);
    p.promote(PieceType::Queen);
    assert_eq!(p.get_piece_type(), PieceType::Queen);
    assert_eq!(p.get_color(), PieceColor::Black);
    assert!(p.has_moved());
}

#[test]
fn enemy_color_flips() {
    assert_eq!(PieceColor::White.get_enemy_color(), PieceColor::Black);
    assert_eq!(PieceColor::Black.get_enemy_color(), PieceColor::White);
}

#[test]
fn letters_are_upper_case_for_white() {
    assert_eq!(Piece::new(PieceType::King, PieceColor::White).letter(), 'K');
    assert_eq!(Piece::new(PieceType::King, PieceColor::Black).letter(), 'k');
    assert_eq!(Piece::new(PieceType::Pawn { en_passant: false }, PieceColor::White).letter(), 'P');
    assert_eq!(Piece::new(PieceType::Knight, PieceColor::Black).letter(), 'n');
    assert_eq!(Piece::new(PieceType::Queen, PieceColor::White).letter(), 'Q');
    assert_eq!(Piece::new(PieceType::Rook, PieceColor::Black).letter(), 'r');
    assert_eq!(Piece::new(PieceType::Bishop, PieceColor::White).letter(), 'B');
}
