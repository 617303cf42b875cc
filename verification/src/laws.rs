//! The rules the engine guarantees, stated on their own: no legal move
//! leaves the mover's own king in check, the terminal states mean exactly
//! what they say, castling demands an untouched king and rook, a safe path
//! and no check anywhere along the king's walk, and en passant is open for
//! exactly one ply.

use vstd::prelude::*;

use crate::board::{
    castle_shape, color_on, empty_on, ep_pawn_on, home_rank, king_on, king_unique, kings_placed,
    pawn_rows_ok, piece_on, spec_apply_move, sq_in_bounds, wf_board,
};
use crate::chess::{
    castle_mid, clear_ep_flags, ep_clear, lemma_apply_effects, lemma_check_congruence,
    lemma_clear_ep_effects, lemma_self_move, spec_any_legal, spec_in_check, spec_legal, Chess,
    TurnState,
};
use crate::move_calculator::{attack_equiv, castle_ok, king_step, pseudo_move_ok, rook_ready};
use crate::piece::{enemy_of, Piece, PieceColor, PieceType};

verus! {

/// No legal move leaves the mover's own king attacked: legality is exactly
/// pseudo-legality filtered by simulating the move.
pub proof fn lemma_legal_moves_never_self_check(
    s: Seq<Option<Piece>>,
    c: PieceColor,
    fx: int,
    fy: int,
    tx: int,
    ty: int,
)
    requires
        spec_legal(s, c, fx, fy, tx, ty),
    ensures
        !spec_in_check(spec_apply_move(s, fx, fy, tx, ty), c),
{
}

/// In a live engine, every destination the legal move table admits is safe
/// for the mover's king.
pub proof fn lemma_engine_moves_safe(game: Chess, from: (usize, usize), to: (usize, usize))
    requires
        game.wf(),
        game.move_allowed(from, to),
    ensures
        !spec_in_check(
            spec_apply_move(game.board@, from.0 as int, from.1 as int, to.0 as int, to.1 as int),
            game.turn_color,
        ),
{
}

/// The engine declares checkmate exactly when the side to move is in check
/// and has no legal move at all.
pub proof fn lemma_checkmate_characterization(game: Chess)
    requires
        game.wf(),
    ensures
        (game.turn_state == TurnState::Checkmate) == (spec_in_check(game.board@, game.turn_color)
            && !spec_any_legal(game.board@, game.turn_color)),
{
}

/// The engine declares stalemate exactly when the side to move is not in
/// check and has no legal move at all. (While a promotion is pending the ply
/// is still incomplete, so that state is not spoken of here.)
pub proof fn lemma_stalemate_characterization(game: Chess)
    requires
        game.wf(),
        !(game.turn_state is PendingPromotion),
    ensures
        (game.turn_state == TurnState::Stalemate) == (!spec_in_check(game.board@, game.turn_color)
            && !spec_any_legal(game.board@, game.turn_color)),
{
}

/// A legal castling move requires everything the rules of chess ask of it:
/// an unmoved king on its starting square, an unmoved rook of the same color
/// in the castling corner, every square strictly between them empty, and a
/// king that is not in check where it stands, on the square it passes over,
/// or on its destination.
pub proof fn lemma_castling_requirements(
    s: Seq<Option<Piece>>,
    c: PieceColor,
    fx: int,
    fy: int,
    tx: int,
    ty: int,
)
    requires
        wf_board(s),
        kings_placed(s),
        king_unique(s, c),
        spec_legal(s, c, fx, fy, tx, ty),
        castle_shape(piece_on(s, fx, fy)->0, fx, tx),
    ensures
        piece_on(s, fx, fy) matches Some(k) && k.piece_type is King && !k.has_moved && k.color
            == c,
        fx == 4 && fy == home_rank(c) && ty == fy && (tx == 6 || tx == 2),
        rook_ready(
            s,
            if tx == 6 {
                7int
            } else {
                0int
            },
            fy,
            c,
        ),
        tx == 6 ==> empty_on(s, 5, fy) && empty_on(s, 6, fy),
        tx == 2 ==> empty_on(s, 1, fy) && empty_on(s, 2, fy) && empty_on(s, 3, fy),
        !spec_in_check(s, c),
        !spec_in_check(spec_apply_move(s, fx, fy, castle_mid(fx, tx), fy), c),
        !spec_in_check(spec_apply_move(s, fx, fy, tx, ty), c),
{
    let p = piece_on(s, fx, fy)->0;
    assert(!king_step(fx, fy, tx, ty));
    assert(castle_ok(s, c, fy, if tx > fx { 1int } else { -1int }));

    // standing still is the move the filter simulated for "not castling out
    // of check"; it only marks the king moved, which no enemy attack sees
    lemma_self_move(s, c, fx, fy);
    let s2 = spec_apply_move(s, fx, fy, fx, fy);
    assert(attack_equiv(s, s2, enemy_of(c))) by {
        assert forall|x: int, y: int| sq_in_bounds(x, y) implies #[trigger] empty_on(s, x, y)
            == empty_on(s2, x, y) by {}
        assert forall|x: int, y: int, cc: PieceColor| sq_in_bounds(x, y) implies #[trigger] color_on(
            s,
            x,
            y,
            cc,
        ) == color_on(s2, x, y, cc) by {}
        assert forall|x: int, y: int|
            sq_in_bounds(x, y) && #[trigger] color_on(s, x, y, enemy_of(c)) implies
        crate::move_calculator::mover_like(piece_on(s, x, y)->0, piece_on(s2, x, y)->0) by {}
        assert forall|x: int, y: int| sq_in_bounds(x, y) implies #[trigger] ep_pawn_on(
            s,
            x,
            y,
            enemy_of(enemy_of(c)),
        ) == ep_pawn_on(s2, x, y, enemy_of(enemy_of(c))) by {}
        assert forall|x: int, y: int| sq_in_bounds(x, y) implies #[trigger] king_on(
            s,
            x,
            y,
            enemy_of(enemy_of(c)),
        ) == king_on(s2, x, y, enemy_of(enemy_of(c))) by {}
    }
    lemma_check_congruence(s, s2, c);
}

/// The en passant shape — a pawn stepping diagonally onto an empty square —
/// is legal only while the enemy pawn beside it still carries the en-passant
/// flag, that is, only on the ply right after its two-square advance.
pub proof fn lemma_en_passant_needs_window(
    s: Seq<Option<Piece>>,
    c: PieceColor,
    fx: int,
    fy: int,
    tx: int,
    ty: int,
)
    requires
        spec_legal(s, c, fx, fy, tx, ty),
        piece_on(s, fx, fy)->0.piece_type is Pawn,
        tx != fx,
        empty_on(s, tx, ty),
    ensures
        ep_pawn_on(s, tx, fy, enemy_of(c)),
{
}

/// Executing a move and running the after-move sweep leaves exactly one
/// en-passant window open at most: the opponent's old windows are all
/// closed, and the mover's pawns carry the flag only on the destination of
/// this very move, and only when it was a two-square pawn advance.
pub proof fn lemma_en_passant_one_ply(
    s: Seq<Option<Piece>>,
    c: PieceColor,
    fx: int,
    fy: int,
    tx: int,
    ty: int,
)
    requires
        wf_board(s),
        kings_placed(s),
        pawn_rows_ok(s),
        king_unique(s, c),
        ep_clear(s, c),
        color_on(s, fx, fy, c),
        pseudo_move_ok(s, fx, fy, tx, ty),
    ensures
        ({
            let b = clear_ep_flags(spec_apply_move(s, fx, fy, tx, ty), enemy_of(c));
            &&& ep_clear(b, enemy_of(c))
            &&& forall|x: int, y: int|
                sq_in_bounds(x, y) ==> (#[trigger] ep_pawn_on(b, x, y, c) <==> (x == tx && y == ty
                    && piece_on(s, fx, fy)->0.piece_type is Pawn && tx == fx && (ty == fy + 2 || ty
                    == fy - 2)))
        }),
{
    let p0 = piece_on(s, fx, fy)->0;
    let sa = spec_apply_move(s, fx, fy, tx, ty);
    let b = clear_ep_flags(sa, enemy_of(c));
    lemma_apply_effects(s, c, fx, fy, tx, ty);
    lemma_clear_ep_effects(sa, enemy_of(c));
    let cap = crate::chess::capture_sq(s, p0, fx, fy, tx, ty);
    assert forall|x: int, y: int| sq_in_bounds(x, y) implies (#[trigger] ep_pawn_on(b, x, y, c)
        <==> (x == tx && y == ty && p0.piece_type is Pawn && tx == fx && (ty == fy + 2 || ty == fy
        - 2))) by {
        assert(ep_pawn_on(b, x, y, c) == ep_pawn_on(sa, x, y, c));
        if !(x == tx && y == ty) {
            if !(x == fx && y == fy) && !(x == cap.0 && y == cap.1) && (castle_shape(p0, fx, tx)
                ==> !(x == (if tx > fx {
                7int
            } else {
                0int
            }) && y == fy) && !(x == (if tx > fx {
                tx - 1
            } else {
                tx + 1
            }) && y == fy)) {
                assert(piece_on(sa, x, y) == piece_on(s, x, y));
                assert(!ep_pawn_on(s, x, y, c));
            }
        } else {
            assert(piece_on(sa, tx, ty) == Some(crate::board::moved_piece(p0, fx, fy, tx, ty)));
            assert(!ep_pawn_on(s, fx, fy, c));
        }
    }
}

/// While a promotion is pending, no move at all may be attempted by either
/// side: the engine rejects everything until the choice resolves.
pub proof fn lemma_promotion_suspends(game: Chess, from: (usize, usize), to: (usize, usize))
    requires
        game.turn_state is PendingPromotion,
    ensures
        !game.move_allowed(from, to),
{
}

} // verus!
