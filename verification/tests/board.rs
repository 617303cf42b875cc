use chess_engine::board::Board;
use chess_engine::piece::{Piece, PieceColor, PieceType};

#[test]
fn index_round_trip() {
    assert_eq!(Board::to_index1d((0, 0)), 0);
    assert_eq!(Board::to_index1d((7, 0)), 7);
    assert_eq!(Board::to_index1d((0, 1)), 8);
    assert_eq!(Board::to_index1d((4, 7)), 60);
    assert_eq!(Board::to_index2d(0), (0, 0));
    assert_eq!(Board::to_index2d(7), (7, 0));
    assert_eq!(Board::to_index2d(8), (0, 1));
    assert_eq!(Board::to_index2d(60), (4, 7));
    for i in 0..64 {
        assert_eq!(Board::to_index1d(Board::to_index2d(i)), i);
    }
}

#[test]
fn bounds_check() {
    assert!(Board::is_position_in_bound((0, 0)));
    assert!(Board::is_position_in_bound((7, 7)));
    assert!(!Board::is_position_in_bound((-1, 0)));
    assert!(!Board::is_position_in_bound((0, -1)));
    assert!(!Board::is_position_in_bound((8, 0)));
    assert!(!Board::is_position_in_bound((0, 8)));
}

#[test]
fn new_board_is_empty() {
    let b = Board::new();
    for x in 0..8 {
        for y in 0..8 {
            assert!(b.is_empty_on((x, y)));
            assert_eq!(b.get_piece((x, y)), None);
        }
    }
}

#[test]
fn initial_setup_matches_the_standard_position() {
    let b = Board::new().init();
    let back = [
        PieceType::Rook,
        PieceType::Knight,
        PieceType::Bishop,
        PieceType::Queen,
        PieceType::King,
        PieceType::Bishop,
        PieceType::Knight,
        PieceType::Rook,
    ];
    for x in 0..8 {
        assert_eq!(b.get_piece((x, 0)), Some(Piece::new(back[x], PieceColor::Black)));
        assert_eq!(
            b.get_piece((x, 1)),
            Some(Piece::new(PieceType::Pawn { en_passant: false }, PieceColor::Black))
        );
        for y in 2..6 {
            assert!(b.is_empty_on((x, y)));
        }
        assert_eq!(
            b.get_piece((x, 6)),
            Some(Piece::new(PieceType::Pawn { en_passant: false }, PieceColor::White))
        );
        assert_eq!(b.get_piece((x, 7)), Some(Piece::new(back[x], PieceColor::White)));
    }
    assert!(b.is_color_on((0, 0), PieceColor::Black));
    assert!(!b.is_color_on((0, 0), PieceColor::White));
    assert!(!b.is_color_on((0, 4), PieceColor::Black));
}

#[test]
fn move_piece_marks_the_mover_and_clears_the_source() {
    let mut b = Board::new().init();
    b.move_piece((4, 6), (4, 5));
    assert!(b.is_empty_on((4, 6)));
    let p = b.get_piece((4, 5)).unwrap();
    assert_eq!(p.get_piece_type(), PieceType::Pawn { en_passant: false });
    assert!(p.has_moved());
}

#[test]
fn double_step_raises_the_en_passant_flag() {
    let mut b = Board::new().init();
    b.move_piece((4, 6), (4, 4));
    let p = b.get_piece((4, 4)).unwrap();
    assert_eq!(p.get_piece_type(), PieceType::Pawn { en_passant: true });
}

#[test]
fn en_passant_capture_removes_the_pawn_behind_the_destination() {
    let mut b = Board::new().init();
    // white pawn reaches e5; black pawn double-steps to d5; white captures d6
    b.move_piece((4, 6), (4, 4));
    b.move_piece((4, 4), (4, 3));
    b.move_piece((3, 1), (3, 3));
    assert_eq!(
        b.get_piece((3, 3)).map(|p| p.get_piece_type()),
        Some(PieceType::Pawn { en_passant: true })
    );
    b.move_piece((4, 3), (3, 2));
    assert!(b.is_empty_on((3, 3)));
    assert!(b.is_empty_on((4, 3)));
    assert!(b.is_color_on((3, 2), PieceColor::White));
}

#[test]
fn castling_relocates_the_rook() {
    let mut b = Board::new().init();
    // clear the white kingside, then castle
    b.move_piece((5, 7), (2, 4));
    b.move_piece((6, 7), (5, 5));
    b.move_piece((4, 7), (6, 7));
    assert!(b.is_empty_on((4, 7)));
    assert!(b.is_empty_on((7, 7)));
    let king = b.get_piece((6, 7)).unwrap();
    assert_eq!(king.get_piece_type(), PieceType::King);
    assert!(king.has_moved());
    let rook = b.get_piece((5, 7)).unwrap();
    assert_eq!(rook.get_piece_type(), PieceType::Rook);
    assert!(rook.has_moved());
}

#[test]
fn snapshot_is_an_independent_copy() {
    let mut b = Board::new().init();
    let saved = b.snapshot();
    b.move_piece((4, 6), (4, 4));
    assert!(b.is_empty_on((4, 6)));
    assert!(!saved.is_empty_on((4, 6)));
    assert!(saved.is_empty_on((4, 4)));
    // restoring recovers the position byte for byte
    let b2 = saved.snapshot();
    for x in 0..8 {
        for y in 0..8 {
            assert_eq!(b2.get_piece((x, y)), saved.get_piece((x, y)));
        }
    }
}
