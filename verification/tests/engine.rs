use chess_engine::chess::{new_game, Chess, MoveOutcome, TurnState};
use chess_engine::piece::{PieceColor, PieceType};

/// Play one move that must succeed as a plain move.
fn mv(game: &mut Chess, from: (usize, usize), to: (usize, usize)) {
    let outcome = game.attempt_move(from, to);
    assert_eq!(outcome, MoveOutcome::Moved, "move {:?} -> {:?} failed", from, to);
}

fn kind_at(game: &Chess, pos: (usize, usize)) -> Option<PieceType> {
    game.get_piece(pos).map(|p| p.get_piece_type())
}

#[test]
fn new_game_starts_normal_with_white_to_move() {
    let game = new_game();
    assert_eq!(game.current_status(), (PieceColor::White, TurnState::Normal));
}

#[test]
fn init_builds_the_same_game_as_new_game() {
    let game = Chess::new().init();
    assert_eq!(game.current_status(), (PieceColor::White, TurnState::Normal));
    let reference = new_game();
    for x in 0..8 {
        for y in 0..8 {
            assert_eq!(game.get_piece((x, y)), reference.get_piece((x, y)));
        }
    }
}

#[test]
fn new_game_has_the_standard_position() {
    let game = new_game();
    assert_eq!(kind_at(&game, (4, 7)), Some(PieceType::King));
    assert_eq!(kind_at(&game, (4, 0)), Some(PieceType::King));
    assert_eq!(kind_at(&game, (3, 7)), Some(PieceType::Queen));
    assert_eq!(kind_at(&game, (0, 0)), Some(PieceType::Rook));
    for x in 0..8 {
        assert_eq!(kind_at(&game, (x, 6)), Some(PieceType::Pawn { en_passant: false }));
        assert_eq!(kind_at(&game, (x, 1)), Some(PieceType::Pawn { en_passant: false }));
        for y in 2..6 {
            assert_eq!(game.get_piece((x, y)), None);
        }
    }
}

#[test]
fn pawn_has_single_and_double_advance_at_start() {
    let game = new_game();
    let mut dests = game.legal_destinations((4, 6));
    dests.sort();
    assert_eq!(dests, vec![(4, 4), (4, 5)]);
}

#[test]
fn knight_jumps_over_the_pawn_rank() {
    let game = new_game();
    let mut dests = game.legal_destinations((1, 7));
    dests.sort();
    assert_eq!(dests, vec![(0, 5), (2, 5)]);
}

#[test]
fn blocked_pieces_have_no_destinations_at_start() {
    let game = new_game();
    assert!(game.legal_destinations((0, 7)).is_empty()); // rook
    assert!(game.legal_destinations((2, 7)).is_empty()); // bishop
    assert!(game.legal_destinations((3, 7)).is_empty()); // queen
    assert!(game.legal_destinations((4, 7)).is_empty()); // king
}

#[test]
fn no_destinations_for_empty_squares_or_the_side_not_on_move() {
    let game = new_game();
    assert!(game.legal_destinations((4, 4)).is_empty()); // empty square
    assert!(game.legal_destinations((4, 1)).is_empty()); // black pawn, White to move
    assert!(game.legal_destinations((8, 8)).is_empty()); // off the board
}

#[test]
fn out_of_bounds_and_illegal_moves_are_rejected() {
    let mut game = new_game();
    assert_eq!(game.attempt_move((8, 8), (0, 0)), MoveOutcome::Rejected);
    assert_eq!(game.attempt_move((4, 6), (4, 3)), MoveOutcome::Rejected); // three squares
    assert_eq!(game.attempt_move((4, 1), (4, 2)), MoveOutcome::Rejected); // not black's turn
    assert_eq!(game.attempt_move((4, 4), (4, 3)), MoveOutcome::Rejected); // empty square
    // a rejected move changes nothing
    assert_eq!(game.current_status(), (PieceColor::White, TurnState::Normal));
    assert_eq!(kind_at(&game, (4, 6)), Some(PieceType::Pawn { en_passant: false }));
}

#[test]
fn a_move_passes_the_turn() {
    let mut game = new_game();
    mv(&mut game, (4, 6), (4, 4));
    assert_eq!(game.current_status(), (PieceColor::Black, TurnState::Normal));
    assert_eq!(game.get_piece((4, 6)), None);
    let pawn = game.get_piece((4, 4)).unwrap();
    assert!(pawn.has_moved());
    assert_eq!(pawn.get_color(), PieceColor::White);
}

#[test]
fn computing_moves_leaves_the_board_intact() {
    // the legality filter simulates and restores candidate moves on the live
    // board; a fresh game must still hold the exact standard position
    let game = new_game();
    let reference = chess_engine::board::Board::new().init();
    for x in 0..8 {
        for y in 0..8 {
            assert_eq!(game.get_piece((x, y)), reference.get_piece((x, y)));
        }
    }
}

#[test]
fn double_step_opens_a_window_that_the_next_move_closes() {
    let mut game = new_game();
    mv(&mut game, (4, 6), (4, 4));
    // the double-stepped pawn is flagged for one ply
    assert_eq!(kind_at(&game, (4, 4)), Some(PieceType::Pawn { en_passant: true }));
    mv(&mut game, (0, 1), (0, 2));
    // after Black's reply the sweep has lowered the flag again
    assert_eq!(kind_at(&game, (4, 4)), Some(PieceType::Pawn { en_passant: false }));
}

#[test]
fn en_passant_is_offered_on_the_very_next_move() {
    let mut game = new_game();
    mv(&mut game, (4, 6), (4, 4)); // white pawn out
    mv(&mut game, (0, 1), (0, 2)); // black waits
    mv(&mut game, (4, 4), (4, 3)); // white pawn to the fifth rank
    mv(&mut game, (3, 1), (3, 3)); // black pawn double-steps beside it
    let dests = game.legal_destinations((4, 3));
    assert!(dests.contains(&(3, 2)), "en passant square missing: {:?}", dests);
    // capture it: the victim behind the destination disappears
    mv(&mut game, (4, 3), (3, 2));
    assert_eq!(game.get_piece((3, 3)), None);
    assert_eq!(game.get_piece((4, 3)), None);
    assert_eq!(kind_at(&game, (3, 2)), Some(PieceType::Pawn { en_passant: false }));
}

#[test]
fn en_passant_expires_after_one_ply() {
    let mut game = new_game();
    mv(&mut game, (4, 6), (4, 4));
    mv(&mut game, (0, 1), (0, 2));
    mv(&mut game, (4, 4), (4, 3));
    mv(&mut game, (3, 1), (3, 3)); // the window opens
    mv(&mut game, (1, 7), (2, 5)); // white lets it pass
    mv(&mut game, (0, 2), (0, 3));
    let dests = game.legal_destinations((4, 3));
    assert!(!dests.contains(&(3, 2)), "expired en passant still offered: {:?}", dests);
}

#[test]
fn castling_is_offered_over_a_safe_empty_path() {
    let mut game = new_game();
    mv(&mut game, (4, 6), (4, 4)); // open the bishop's diagonal
    mv(&mut game, (1, 1), (1, 2));
    mv(&mut game, (5, 7), (2, 4)); // bishop out
    mv(&mut game, (2, 1), (2, 2));
    mv(&mut game, (6, 7), (5, 5)); // knight out
    mv(&mut game, (3, 1), (3, 2));
    let dests = game.legal_destinations((4, 7));
    assert!(dests.contains(&(6, 7)), "kingside castling missing: {:?}", dests);
    // castle: the king moves two files and the rook jumps over
    mv(&mut game, (4, 7), (6, 7));
    assert_eq!(kind_at(&game, (6, 7)), Some(PieceType::King));
    assert_eq!(kind_at(&game, (5, 7)), Some(PieceType::Rook));
    assert_eq!(game.get_piece((7, 7)), None);
    assert_eq!(game.get_piece((4, 7)), None);
}

#[test]
fn castling_disappears_when_the_transit_square_is_attacked() {
    let mut game = new_game();
    mv(&mut game, (4, 6), (4, 4));
    mv(&mut game, (1, 1), (1, 2));
    mv(&mut game, (6, 6), (6, 5)); // make room for the bishop on the other wing
    mv(&mut game, (2, 0), (0, 2)); // black bishop aims at the transit square
    mv(&mut game, (5, 7), (7, 5)); // white bishop leaves over the kingside
    mv(&mut game, (2, 1), (2, 2));
    mv(&mut game, (6, 7), (5, 5)); // knight out: path now empty, but covered
    mv(&mut game, (3, 1), (3, 2));
    let dests = game.legal_destinations((4, 7));
    assert!(!dests.contains(&(6, 7)), "castling through check offered: {:?}", dests);
}

#[test]
fn fools_mate_is_checkmate() {
    let mut game = new_game();
    mv(&mut game, (5, 6), (5, 5)); // weaken the king's diagonal
    mv(&mut game, (4, 1), (4, 3));
    mv(&mut game, (6, 6), (6, 4)); // open it completely
    mv(&mut game, (3, 0), (7, 4)); // the queen strikes
    assert_eq!(game.current_status(), (PieceColor::White, TurnState::Checkmate));
    // the game is over: nothing more is accepted
    assert_eq!(game.attempt_move((4, 6), (4, 5)), MoveOutcome::Rejected);
    assert!(game.legal_destinations((4, 6)).is_empty());
}

#[test]
fn a_check_with_an_escape_is_not_checkmate() {
    let mut game = new_game();
    mv(&mut game, (4, 6), (4, 4));
    mv(&mut game, (4, 1), (4, 3));
    mv(&mut game, (3, 7), (7, 3)); // white queen to the fifth rank
    mv(&mut game, (1, 0), (2, 2));
    mv(&mut game, (7, 3), (5, 1)); // the queen takes the pawn beside the king
    assert_eq!(game.current_status(), (PieceColor::Black, TurnState::Check));
    // the king can capture its attacker and play goes on
    mv(&mut game, (4, 0), (5, 1));
    assert_eq!(game.current_status(), (PieceColor::White, TurnState::Normal));
}

#[test]
fn stalemate_is_declared_when_no_move_remains_out_of_check() {
    // the shortest known stalemate
    let mut game = new_game();
    mv(&mut game, (4, 6), (4, 5));
    mv(&mut game, (0, 1), (0, 3));
    mv(&mut game, (3, 7), (7, 3));
    mv(&mut game, (0, 0), (0, 2));
    mv(&mut game, (7, 3), (0, 3));
    mv(&mut game, (7, 1), (7, 3));
    mv(&mut game, (0, 3), (2, 1));
    mv(&mut game, (0, 2), (7, 2));
    mv(&mut game, (7, 6), (7, 4));
    mv(&mut game, (5, 1), (5, 2));
    mv(&mut game, (2, 1), (3, 1));
    mv(&mut game, (4, 0), (5, 1));
    mv(&mut game, (3, 1), (1, 1));
    mv(&mut game, (3, 0), (3, 5));
    mv(&mut game, (1, 1), (1, 0));
    mv(&mut game, (3, 5), (7, 1));
    mv(&mut game, (1, 0), (2, 0));
    mv(&mut game, (5, 1), (6, 2));
    mv(&mut game, (2, 0), (4, 2));
    assert_eq!(game.current_status(), (PieceColor::Black, TurnState::Stalemate));
    assert_eq!(game.attempt_move((6, 2), (6, 3)), MoveOutcome::Rejected);
}

#[test]
fn promotion_suspends_the_turn_until_a_valid_choice() {
    let mut game = new_game();
    mv(&mut game, (0, 6), (0, 4));
    mv(&mut game, (1, 1), (1, 3));
    let capture = game.attempt_move((0, 4), (1, 3));
    assert_eq!(capture, MoveOutcome::Moved);
    mv(&mut game, (6, 0), (5, 2));
    mv(&mut game, (1, 3), (1, 2));
    mv(&mut game, (5, 2), (6, 0));
    mv(&mut game, (1, 2), (1, 1));
    mv(&mut game, (6, 0), (5, 2));
    // the pawn captures into the corner and must promote
    let outcome = game.attempt_move((1, 1), (0, 0));
    assert_eq!(outcome, MoveOutcome::RequiresPromotionChoice);
    assert_eq!(
        game.current_status(),
        (PieceColor::White, TurnState::PendingPromotion(0, 0, PieceColor::White))
    );
    // no move may be attempted while the choice is pending
    assert_eq!(game.attempt_move((4, 1), (4, 2)), MoveOutcome::Rejected);
    assert_eq!(game.attempt_move((4, 6), (4, 5)), MoveOutcome::Rejected);
    // king and pawn are invalid choices and leave the state suspended
    game.resolve_promotion(PieceType::King);
    assert_eq!(
        game.current_status(),
        (PieceColor::White, TurnState::PendingPromotion(0, 0, PieceColor::White))
    );
    game.resolve_promotion(PieceType::Pawn { en_passant: false });
    assert_eq!(
        game.current_status(),
        (PieceColor::White, TurnState::PendingPromotion(0, 0, PieceColor::White))
    );
    // a valid choice promotes in place and passes the turn
    game.resolve_promotion(PieceType::Queen);
    assert_eq!(kind_at(&game, (0, 0)), Some(PieceType::Queen));
    assert_eq!(game.get_piece((0, 0)).unwrap().get_color(), PieceColor::White);
    assert_eq!(game.current_status(), (PieceColor::Black, TurnState::Normal));
}

#[test]
fn resolve_promotion_outside_a_promotion_does_nothing() {
    let mut game = new_game();
    game.resolve_promotion(PieceType::Queen);
    assert_eq!(game.current_status(), (PieceColor::White, TurnState::Normal));
    assert_eq!(kind_at(&game, (4, 6)), Some(PieceType::Pawn { en_passant: false }));
}
