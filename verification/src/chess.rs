//! The engine: the turn state machine, the legal move table and the
//! legality filter. The turn state machine asks the move generator for the
//! pseudo-legal moves of every piece of the side to move, the filter removes
//! every candidate that would leave the mover's own king attacked (simulating
//! each candidate on a snapshot of the board), and the filtered table is the
//! authoritative legal-move set for the turn. On a confirmed move the
//! executor mutates the board and the state machine decides the next state:
//! continue, suspend for a promotion choice, or declare check, checkmate or
//! stalemate.

use vstd::prelude::*;

use crate::board::{
    castle_shape, color_on, empty_on, ep_pawn_on, home_rank, king_on, king_sq, king_unique,
    kings_placed, last_rank, pawn_rank, pawn_rows_ok, piece_on, spec_apply_move, sq_idx,
    sq_in_bounds, wf_board, Board,
};
use crate::move_calculator::{
    self, castle_ok, king_step, lemma_pseudo_target, pseudo_move_ok, ray_reaches, rook_ready,
    spec_attacked, target_ok,
};
use crate::piece::{enemy_of, Piece, PieceColor, PieceType};

verus! {

/// The state of the current turn. `PendingPromotion` carries the square and
/// color of a pawn that reached the last rank; it freezes turn advancement
/// until a promotion choice resolves.
#[derive(Copy, Clone, PartialEq, Eq, Structural, Debug)]
pub enum TurnState {
    Normal,
    PendingPromotion(usize, usize, PieceColor),
    Check,
    Checkmate,
    Stalemate,
}

/// What an attempted move did.
#[derive(Copy, Clone, PartialEq, Eq, Structural, Debug)]
pub enum MoveOutcome {
    Moved,
    RequiresPromotionChoice,
    Rejected,
}

/// The side `c` is in check: its king's square is among the enemy's attacks.
pub open spec fn spec_in_check(s: Seq<Option<Piece>>, c: PieceColor) -> bool {
    spec_attacked(s, enemy_of(c), king_sq(s, c).0, king_sq(s, c).1)
}

/// The square the king passes over when castling from file `fx` toward `tx`.
pub open spec fn castle_mid(fx: int, tx: int) -> int {
    if tx > fx {
        fx + 1
    } else {
        fx - 1
    }
}

/// The move from `(fx, fy)` to `(tx, ty)` is legal for side `c`: the square
/// holds a piece of `c`, the move is pseudo-legal, executing it does not
/// leave `c`'s own king attacked, and a castling king additionally is not in
/// check on its starting square or on the square it passes over.
pub open spec fn spec_legal(
    s: Seq<Option<Piece>>,
    c: PieceColor,
    fx: int,
    fy: int,
    tx: int,
    ty: int,
) -> bool {
    &&& sq_in_bounds(fx, fy)
    &&& sq_in_bounds(tx, ty)
    &&& color_on(s, fx, fy, c)
    &&& pseudo_move_ok(s, fx, fy, tx, ty)
    &&& !spec_in_check(spec_apply_move(s, fx, fy, tx, ty), c)
    &&& (castle_shape(piece_on(s, fx, fy)->0, fx, tx) ==> !spec_in_check(
        spec_apply_move(s, fx, fy, fx, fy),
        c,
    ) && !spec_in_check(spec_apply_move(s, fx, fy, castle_mid(fx, tx), fy), c))
}

/// The side `c` has at least one legal move.
pub open spec fn spec_any_legal(s: Seq<Option<Piece>>, c: PieceColor) -> bool {
    exists|fx: int, fy: int, tx: int, ty: int| #[trigger] spec_legal(s, c, fx, fy, tx, ty)
}

/// The piece on `(fx, fy)` has at least one legal destination.
pub open spec fn spec_movable(s: Seq<Option<Piece>>, c: PieceColor, fx: int, fy: int) -> bool {
    exists|tx: int, ty: int| #[trigger] spec_legal(s, c, fx, fy, tx, ty)
}

/// The state a side finds itself in once its legal moves are known: terminal
/// when it has none (checkmate under check, stalemate otherwise), else check
/// or normal play.
pub open spec fn spec_next_state(s: Seq<Option<Piece>>, c: PieceColor) -> TurnState {
    if !spec_any_legal(s, c) {
        if spec_in_check(s, c) {
            TurnState::Checkmate
        } else {
            TurnState::Stalemate
        }
    } else {
        if spec_in_check(s, c) {
            TurnState::Check
        } else {
            TurnState::Normal
        }
    }
}

/// A pawn of color `d` loses its en-passant flag; other pieces are untouched.
pub open spec fn cleared_piece(p: Piece, d: PieceColor) -> Piece {
    if p.color == d && p.piece_type is Pawn {
        Piece { piece_type: PieceType::Pawn { en_passant: false }, ..p }
    } else {
        p
    }
}

/// The en-passant flag sweep run after a move: the flags of the side that did
/// not just move are cleared, closing their one-ply capture window.
pub open spec fn clear_ep_flags(s: Seq<Option<Piece>>, d: PieceColor) -> Seq<Option<Piece>> {
    Seq::new(
        s.len(),
        |i: int|
            match s[i] {
                Some(p) => Some(cleared_piece(p, d)),
                None => None,
            },
    )
}

/// A pawn stands on the last rank of its own color and must promote.
pub open spec fn promotable_at(s: Seq<Option<Piece>>, x: int, y: int) -> bool {
    piece_on(s, x, y) matches Some(p) && p.piece_type is Pawn && y == last_rank(p.color)
}

pub open spec fn none_promotable(s: Seq<Option<Piece>>) -> bool {
    forall|x: int, y: int| sq_in_bounds(x, y) ==> !(#[trigger] promotable_at(s, x, y))
}

/// The board after the piece on `(x, y)` changes kind to `k` in place.
pub open spec fn promote_at(s: Seq<Option<Piece>>, x: int, y: int, k: PieceType) -> Seq<
    Option<Piece>,
> {
    s.update(sq_idx(x, y), Some(Piece { piece_type: k, ..piece_on(s, x, y)->0 }))
}

/// The standing structural invariants of a play board: 64 squares, exactly
/// one king of each color, unmoved kings and pawns still on their starting
/// ranks.
pub open spec fn board_ok(s: Seq<Option<Piece>>) -> bool {
    &&& wf_board(s)
    &&& kings_placed(s)
    &&& pawn_rows_ok(s)
    &&& king_unique(s, PieceColor::White)
    &&& king_unique(s, PieceColor::Black)
}

/// No pawn of color `c` carries the en-passant flag.
pub open spec fn ep_clear(s: Seq<Option<Piece>>, c: PieceColor) -> bool {
    forall|x: int, y: int| sq_in_bounds(x, y) ==> !ep_pawn_on(s, x, y, c)
}

/// Some entry of a 64-entry move table row is set.
spec fn row_any(row: Seq<bool>) -> bool {
    exists|j: int| 0 <= j < 64 && row[j]
}

/// The capture square of a move: behind the destination for an en passant
/// capture, the destination itself otherwise.
pub open spec fn capture_sq(
    s: Seq<Option<Piece>>,
    p0: Piece,
    fx: int,
    fy: int,
    tx: int,
    ty: int,
) -> (int, int) {
    if crate::board::ep_capture(s, p0, fx, fy, tx, ty) {
        (tx, fy)
    } else {
        (tx, ty)
    }
}

/// What executing a pseudo-legal move leaves on each square, and what the
/// standing board invariants become. The frame: only the source, capture and
/// destination squares change, plus the two rook squares when castling.
pub proof fn lemma_apply_effects(
    s: Seq<Option<Piece>>,
    c: PieceColor,
    fx: int,
    fy: int,
    tx: int,
    ty: int,
)
    requires
        wf_board(s),
        kings_placed(s),
        pawn_rows_ok(s),
        king_unique(s, c),
        color_on(s, fx, fy, c),
        pseudo_move_ok(s, fx, fy, tx, ty),
    ensures
        ({
            let p0 = piece_on(s, fx, fy)->0;
            let p = crate::board::moved_piece(p0, fx, fy, tx, ty);
            let s2 = spec_apply_move(s, fx, fy, tx, ty);
            let cap = capture_sq(s, p0, fx, fy, tx, ty);
            let castles = castle_shape(p0, fx, tx);
            let rx: int = if tx > fx {
                7
            } else {
                0
            };
            let nrx: int = if tx > fx {
                tx - 1
            } else {
                tx + 1
            };
            &&& wf_board(s2)
            &&& piece_on(s2, tx, ty) == Some(p)
            &&& empty_on(s2, fx, fy)
            &&& empty_on(s2, cap.0, cap.1) || (cap.0 == tx && cap.1 == ty)
            &&& (castles ==> empty_on(s2, rx, fy) && piece_on(s2, nrx, fy) == Some(
                Piece { has_moved: true, ..piece_on(s, rx, fy)->0 },
            ))
            &&& (castles ==> rook_ready(s, rx, fy, c) && fx == 4 && ty == fy)
            &&& forall|x: int, y: int|
                sq_in_bounds(x, y) && !(x == fx && y == fy) && !(x == tx && y == ty) && !(x == cap.0
                    && y == cap.1) && (castles ==> !(x == rx && y == fy) && !(x == nrx && y == fy))
                    ==> #[trigger] piece_on(s2, x, y) == piece_on(s, x, y)
            &&& kings_placed(s2)
            &&& pawn_rows_ok(s2)
            &&& king_unique(s2, c)
            &&& (king_unique(s, enemy_of(c)) && !spec_in_check(s, enemy_of(c)) ==> king_unique(
                s2,
                enemy_of(c),
            ))
            &&& (none_promotable(s) ==> forall|x: int, y: int|
                sq_in_bounds(x, y) ==> (#[trigger] promotable_at(s2, x, y) <==> (x == tx && y == ty
                    && p0.piece_type is Pawn && ty == last_rank(c))))
            &&& (ep_clear(s, c) && p0.piece_type is Pawn && ty == last_rank(c)
                ==> p.piece_type == PieceType::Pawn { en_passant: false })
        }),
{
    let p0 = piece_on(s, fx, fy)->0;
    let p = crate::board::moved_piece(p0, fx, fy, tx, ty);
    let s2 = spec_apply_move(s, fx, fy, tx, ty);
    let cap = capture_sq(s, p0, fx, fy, tx, ty);
    let castles = castle_shape(p0, fx, tx);
    let rx: int = if tx > fx {
        7
    } else {
        0
    };
    let nrx: int = if tx > fx {
        tx - 1
    } else {
        tx + 1
    };
    assert(p0.color == c);
    lemma_pseudo_target(s, fx, fy, tx, ty);

    // a castling-shaped pseudo-legal move satisfies the castling conditions
    if castles {
        assert(p0.piece_type is King);
        assert(!king_step(fx, fy, tx, ty));
        assert(fx == 4 && ty == fy && (tx == 6 || tx == 2));
        assert(castle_ok(s, c, fy, if tx > fx { 1int } else { -1int }));
        assert(rook_ready(s, rx, fy, c));
        assert(empty_on(s, nrx, fy));
    }

    // the en passant capture square holds an enemy pawn
    if cap != (tx, ty) {
        assert(crate::board::ep_capture(s, p0, fx, fy, tx, ty));
        assert(ep_pawn_on(s, tx, fy, enemy_of(c)));
        assert(p0.piece_type is Pawn);
        assert(ty == fy + crate::move_calculator::pawn_dir(c) || ty == fy + 2
            * crate::move_calculator::pawn_dir(c));
        assert(cap.1 != ty);
    }

    // the frame: each square's final occupant by the update chain
    assert(piece_on(s2, tx, ty) == Some(p));
    assert(empty_on(s2, fx, fy));
    assert(cap.0 == tx && cap.1 == ty || empty_on(s2, cap.0, cap.1));
    if castles {
        assert(empty_on(s2, rx, fy));
        assert(piece_on(s2, nrx, fy) == Some(Piece { has_moved: true, ..piece_on(s, rx, fy)->0 }));
    }
    assert forall|x: int, y: int|
        sq_in_bounds(x, y) && !(x == fx && y == fy) && !(x == tx && y == ty) && !(x == cap.0 && y
            == cap.1) && (castles ==> !(x == rx && y == fy) && !(x == nrx && y == fy))
            implies #[trigger] piece_on(s2, x, y) == piece_on(s, x, y) by {}

    // unmoved kings and pawns are exactly where they were, so placement holds
    assert forall|x: int, y: int|
        sq_in_bounds(x, y) && (#[trigger] piece_on(s2, x, y) matches Some(q) && !q.has_moved)
            implies piece_on(s2, x, y) == piece_on(s, x, y) by {}
    assert(kings_placed(s2));
    assert(pawn_rows_ok(s2));

    // the mover's king survives: it is the mover itself, or it stands clear
    // of every changed square
    if p0.piece_type is King {
        assert(king_on(s, fx, fy, c));
        assert(king_on(s2, tx, ty, c));
        assert forall|x: int, y: int|
            sq_in_bounds(x, y) && #[trigger] king_on(s2, x, y, c) implies x == tx && y == ty by {
            if !(x == tx && y == ty) && !(x == fx && y == fy) && !(x == cap.0 && y == cap.1) && (
            castles ==> !(x == rx && y == fy) && !(x == nrx && y == fy)) {
                assert(piece_on(s2, x, y) == piece_on(s, x, y));
                assert(king_on(s, x, y, c));
                assert(x == fx && y == fy);
            }
        }
        let qq = (tx, ty);
        assert(sq_in_bounds(qq.0, qq.1) && king_on(s2, qq.0, qq.1, c));
        assert(king_unique(s2, c));
    } else {
        let k = king_sq(s, c);
        assert(sq_in_bounds(k.0, k.1) && king_on(s, k.0, k.1, c)) by {
            let (wx, wy): (int, int) = choose|wx: int, wy: int|
                sq_in_bounds(wx, wy) && king_on(s, wx, wy, c);
            let ww = (wx, wy);
            assert(sq_in_bounds(ww.0, ww.1) && king_on(s, ww.0, ww.1, c));
        }
        assert(!(k.0 == fx && k.1 == fy));
        assert(!(k.0 == tx && k.1 == ty)) by {
            assert(target_ok(s, tx, ty, enemy_of(c)));
        }
        assert(!(k.0 == cap.0 && k.1 == cap.1));
        if castles {
            assert(false);
        }
        assert(king_on(s2, k.0, k.1, c));
        assert forall|x: int, y: int|
            sq_in_bounds(x, y) && #[trigger] king_on(s2, x, y, c) implies x == k.0 && y == k.1 by {
            if !(x == tx && y == ty) && !(x == k.0 && y == k.1) {
                assert(king_on(s, x, y, c));
            }
        }
        assert(king_unique(s2, c));
    }

    // the enemy king survives when it was not even attacked
    if king_unique(s, enemy_of(c)) && !spec_in_check(s, enemy_of(c)) {
        let ec = enemy_of(c);
        let k = king_sq(s, ec);
        assert(sq_in_bounds(k.0, k.1) && king_on(s, k.0, k.1, ec)) by {
            let (wx, wy): (int, int) = choose|wx: int, wy: int|
                sq_in_bounds(wx, wy) && king_on(s, wx, wy, ec);
            let ww = (wx, wy);
            assert(sq_in_bounds(ww.0, ww.1) && king_on(s, ww.0, ww.1, ec));
        }
        assert(!(k.0 == tx && k.1 == ty)) by {
            if k.0 == tx && k.1 == ty {
                assert(spec_attacked(s, c, tx, ty)) by {
                    assert(sq_in_bounds(fx, fy) && color_on(s, fx, fy, c) && pseudo_move_ok(
                        s,
                        fx,
                        fy,
                        tx,
                        ty,
                    ));
                }
                assert(spec_in_check(s, ec));
            }
        }
        assert(!(k.0 == fx && k.1 == fy));
        assert(!(k.0 == cap.0 && k.1 == cap.1));
        assert(king_on(s2, k.0, k.1, ec));
        assert forall|x: int, y: int|
            sq_in_bounds(x, y) && #[trigger] king_on(s2, x, y, ec) implies x == k.0 && y == k.1 by {
            if !(x == tx && y == ty) && !(x == k.0 && y == k.1) {
                assert(king_on(s, x, y, ec));
            }
        }
        assert(king_unique(s2, ec));
    }

    // a pawn waits to promote afterwards exactly when this move was a pawn
    // reaching its last rank
    if none_promotable(s) {
        assert forall|x: int, y: int| sq_in_bounds(x, y) implies (#[trigger] promotable_at(s2, x, y)
            <==> (x == tx && y == ty && p0.piece_type is Pawn && ty == last_rank(c))) by {
            if !(x == tx && y == ty) && promotable_at(s2, x, y) {
                assert(piece_on(s2, x, y) == piece_on(s, x, y));
                assert(promotable_at(s, x, y));
            }
        }
    }

    // a pawn that promotes did not double-step, so its en-passant flag is off
    if ep_clear(s, c) && p0.piece_type is Pawn && ty == last_rank(c) {
        assert(!ep_pawn_on(s, fx, fy, c));
        if tx == fx && (ty == fy + 2 || ty == fy - 2) {
            assert(!p0.has_moved);
            assert(fy == pawn_rank(c));
            assert(false);
        }
    }
}

/// Executing a move whose destination equals its source only marks the piece
/// moved; the board is otherwise untouched. The castling filter simulates
/// this to test whether the king is in check on its starting square.
pub proof fn lemma_self_move(s: Seq<Option<Piece>>, c: PieceColor, fx: int, fy: int)
    requires
        wf_board(s),
        kings_placed(s),
        king_unique(s, c),
        sq_in_bounds(fx, fy),
        color_on(s, fx, fy, c),
    ensures
        ({
            let s2 = spec_apply_move(s, fx, fy, fx, fy);
            &&& wf_board(s2)
            &&& kings_placed(s2)
            &&& king_unique(s2, c)
            &&& piece_on(s2, fx, fy) == Some(
                Piece { has_moved: true, ..piece_on(s, fx, fy)->0 },
            )
            &&& forall|x: int, y: int|
                sq_in_bounds(x, y) && !(x == fx && y == fy) ==> #[trigger] piece_on(s2, x, y)
                    == piece_on(s, x, y)
        }),
{
    let p0 = piece_on(s, fx, fy)->0;
    let s2 = spec_apply_move(s, fx, fy, fx, fy);
    assert(!castle_shape(p0, fx, fx));
    assert(piece_on(s2, fx, fy) == Some(Piece { has_moved: true, ..p0 }));
    assert forall|x: int, y: int|
        sq_in_bounds(x, y) && (#[trigger] piece_on(s2, x, y) matches Some(q) && !q.has_moved)
            implies piece_on(s2, x, y) == piece_on(s, x, y) by {}
    assert(kings_placed(s2));
    if p0.piece_type is King {
        assert(king_on(s, fx, fy, c));
        assert(king_on(s2, fx, fy, c));
        assert forall|x: int, y: int|
            sq_in_bounds(x, y) && #[trigger] king_on(s2, x, y, c) implies x == fx && y == fy by {
            if !(x == fx && y == fy) {
                assert(king_on(s, x, y, c));
            }
        }
        let qq = (fx, fy);
        assert(sq_in_bounds(qq.0, qq.1) && king_on(s2, qq.0, qq.1, c));
        assert(king_unique(s2, c));
    } else {
        let k = king_sq(s, c);
        assert(sq_in_bounds(k.0, k.1) && king_on(s, k.0, k.1, c)) by {
            let (wx, wy): (int, int) = choose|wx: int, wy: int|
                sq_in_bounds(wx, wy) && king_on(s, wx, wy, c);
            let ww = (wx, wy);
            assert(sq_in_bounds(ww.0, ww.1) && king_on(s, ww.0, ww.1, c));
        }
        assert(!(k.0 == fx && k.1 == fy));
        assert(king_on(s2, k.0, k.1, c));
        assert forall|x: int, y: int|
            sq_in_bounds(x, y) && #[trigger] king_on(s2, x, y, c) implies x == k.0 && y == k.1 by {
            if !(x == fx && y == fy) && !(x == k.0 && y == k.1) {
                assert(king_on(s, x, y, c));
            }
        }
        assert(king_unique(s2, c));
    }
}

/// Whether a side is in check is the same on two boards that look alike to
/// its enemy.
pub proof fn lemma_check_congruence(s1: Seq<Option<Piece>>, s2: Seq<Option<Piece>>, c: PieceColor)
    requires
        move_calculator::attack_equiv(s1, s2, enemy_of(c)),
        king_unique(s1, c),
    ensures
        king_unique(s2, c),
        spec_in_check(s1, c) == spec_in_check(s2, c),
{
    assert(enemy_of(enemy_of(c)) == c);
    let k1 = king_sq(s1, c);
    assert(sq_in_bounds(k1.0, k1.1) && king_on(s1, k1.0, k1.1, c)) by {
        let (wx, wy): (int, int) = choose|wx: int, wy: int|
            sq_in_bounds(wx, wy) && king_on(s1, wx, wy, c);
        let ww = (wx, wy);
        assert(sq_in_bounds(ww.0, ww.1) && king_on(s1, ww.0, ww.1, c));
    }
    assert(king_on(s2, k1.0, k1.1, c));
    assert(king_unique(s2, c)) by {
        assert forall|x1: int, y1: int, x2: int, y2: int|
            sq_in_bounds(x1, y1) && sq_in_bounds(x2, y2) && #[trigger] king_on(s2, x1, y1, c)
                && #[trigger] king_on(s2, x2, y2, c) implies x1 == x2 && y1 == y2 by {
            assert(king_on(s1, x1, y1, c));
            assert(king_on(s1, x2, y2, c));
        }
    }
    let k2 = king_sq(s2, c);
    assert(sq_in_bounds(k2.0, k2.1) && king_on(s2, k2.0, k2.1, c)) by {
        let (wx, wy): (int, int) = choose|wx: int, wy: int|
            sq_in_bounds(wx, wy) && king_on(s2, wx, wy, c);
        let ww = (wx, wy);
        assert(sq_in_bounds(ww.0, ww.1) && king_on(s2, ww.0, ww.1, c));
    }
    assert(king_on(s1, k2.0, k2.1, c));
    assert(k2 == k1);
    move_calculator::lemma_attacked_congruence(s1, s2, enemy_of(c), k1.0, k1.1);
}

/// What the en-passant sweep leaves: the swept side's flags are down and
/// nothing else changed, so the board still looks the same to every attacker
/// whose own flags were not the ones swept.
pub proof fn lemma_clear_ep_effects(s: Seq<Option<Piece>>, d: PieceColor)
    requires
        wf_board(s),
    ensures
        ({
            let s2 = clear_ep_flags(s, d);
            &&& wf_board(s2)
            &&& ep_clear(s2, d)
            &&& move_calculator::attack_equiv(s, s2, d)
            &&& (forall|x: int, y: int|
                sq_in_bounds(x, y) ==> #[trigger] promotable_at(s2, x, y) == promotable_at(s, x, y))
            &&& (forall|x: int, y: int|
                sq_in_bounds(x, y) ==> #[trigger] ep_pawn_on(s2, x, y, enemy_of(d)) == ep_pawn_on(
                    s,
                    x,
                    y,
                    enemy_of(d),
                ))
            &&& (board_ok(s) ==> board_ok(s2))
        }),
{
    let s2 = clear_ep_flags(s, d);
    assert forall|x: int, y: int| sq_in_bounds(x, y) implies #[trigger] piece_on(s2, x, y) == (
    match piece_on(s, x, y) {
        Some(p) => Some(cleared_piece(p, d)),
        None => None,
    }) by {}
    if board_ok(s) {
        assert forall|x: int, y: int|
            sq_in_bounds(x, y) && (#[trigger] piece_on(s2, x, y) matches Some(p) && p.piece_type
                is King && !p.has_moved) implies x == 4 && y == home_rank(
            piece_on(s2, x, y)->0.color,
        ) by {
            assert(piece_on(s, x, y) matches Some(q) && q.piece_type is King && !q.has_moved);
        }
        assert(kings_placed(s2));
        assert forall|x: int, y: int|
            sq_in_bounds(x, y) && (#[trigger] piece_on(s2, x, y) matches Some(p) && p.piece_type
                is Pawn && !p.has_moved) implies y == pawn_rank(piece_on(s2, x, y)->0.color) by {
            assert(piece_on(s, x, y) matches Some(q) && q.piece_type is Pawn && !q.has_moved);
        }
        assert(pawn_rows_ok(s2));
        assert forall|cc: PieceColor| king_unique(s, cc) implies king_unique(s2, cc) by {
            assert forall|x: int, y: int| sq_in_bounds(x, y) implies #[trigger] king_on(s2, x, y, cc)
                == king_on(s, x, y, cc) by {}
            let k = king_sq(s, cc);
            assert(sq_in_bounds(k.0, k.1) && king_on(s, k.0, k.1, cc)) by {
                let (wx, wy): (int, int) = choose|wx: int, wy: int|
                    sq_in_bounds(wx, wy) && king_on(s, wx, wy, cc);
                let ww = (wx, wy);
                assert(sq_in_bounds(ww.0, ww.1) && king_on(s, ww.0, ww.1, cc));
            }
            assert(king_on(s2, k.0, k.1, cc));
        }
        assert(king_unique(s2, PieceColor::White));
        assert(king_unique(s2, PieceColor::Black));
    }
}

/// What promoting the pawn on `(x, y)` in place leaves: only that square's
/// kind changes, so the board still looks the same to the opponent.
pub proof fn lemma_promote_effects(s: Seq<Option<Piece>>, x: int, y: int, k: PieceType)
    requires
        wf_board(s),
        sq_in_bounds(x, y),
        piece_on(s, x, y) matches Some(p) && p.piece_type == (PieceType::Pawn {
            en_passant: false,
        }),
        !(k is King),
        !(k is Pawn),
    ensures
        ({
            let s2 = promote_at(s, x, y, k);
            let c = piece_on(s, x, y)->0.color;
            &&& wf_board(s2)
            &&& piece_on(s2, x, y) == Some(Piece { piece_type: k, ..piece_on(s, x, y)->0 })
            &&& (forall|x2: int, y2: int|
                sq_in_bounds(x2, y2) && !(x2 == x && y2 == y) ==> #[trigger] piece_on(s2, x2, y2)
                    == piece_on(s, x2, y2))
            &&& move_calculator::attack_equiv(s, s2, enemy_of(c))
            &&& (forall|x2: int, y2: int, cc: PieceColor|
                sq_in_bounds(x2, y2) ==> #[trigger] ep_pawn_on(s2, x2, y2, cc) == ep_pawn_on(
                    s,
                    x2,
                    y2,
                    cc,
                ))
            &&& !promotable_at(s2, x, y)
            &&& (forall|x2: int, y2: int|
                sq_in_bounds(x2, y2) && !(x2 == x && y2 == y) ==> #[trigger] promotable_at(
                    s2,
                    x2,
                    y2,
                ) == promotable_at(s, x2, y2))
            &&& (board_ok(s) ==> board_ok(s2))
        }),
{
    let s2 = promote_at(s, x, y, k);
    let c = piece_on(s, x, y)->0.color;
    if board_ok(s) {
        assert forall|x2: int, y2: int|
            sq_in_bounds(x2, y2) && (#[trigger] piece_on(s2, x2, y2) matches Some(p)
                && p.piece_type is King && !p.has_moved) implies x2 == 4 && y2 == home_rank(
            piece_on(s2, x2, y2)->0.color,
        ) by {
            assert(piece_on(s, x2, y2) matches Some(q) && q.piece_type is King && !q.has_moved);
        }
        assert(kings_placed(s2));
        assert forall|x2: int, y2: int|
            sq_in_bounds(x2, y2) && (#[trigger] piece_on(s2, x2, y2) matches Some(p)
                && p.piece_type is Pawn && !p.has_moved) implies y2 == pawn_rank(
            piece_on(s2, x2, y2)->0.color,
        ) by {
            assert(piece_on(s, x2, y2) matches Some(q) && q.piece_type is Pawn && !q.has_moved);
        }
        assert(pawn_rows_ok(s2));
        assert forall|cc: PieceColor| king_unique(s, cc) implies king_unique(s2, cc) by {
            assert forall|x2: int, y2: int|
                sq_in_bounds(x2, y2) implies #[trigger] king_on(s2, x2, y2, cc) == king_on(
                s,
                x2,
                y2,
                cc,
            ) by {}
            let kq = king_sq(s, cc);
            assert(sq_in_bounds(kq.0, kq.1) && king_on(s, kq.0, kq.1, cc)) by {
                let (wx, wy): (int, int) = choose|wx: int, wy: int|
                    sq_in_bounds(wx, wy) && king_on(s, wx, wy, cc);
                let ww = (wx, wy);
                assert(sq_in_bounds(ww.0, ww.1) && king_on(s, ww.0, ww.1, cc));
            }
            assert(king_on(s2, kq.0, kq.1, cc));
        }
        assert(king_unique(s2, PieceColor::White));
        assert(king_unique(s2, PieceColor::Black));
    }
}

/// A copy of one move table row.
fn copy_row(v: &Vec<bool>) -> (r: Vec<bool>)
    ensures
        r@ == v@,
{
    let mut r: Vec<bool> = Vec::new();
    let n = v.len();
    let mut i: usize = 0;
    #[verifier::loop_isolation(false)]
    while i < n
        invariant
            i <= n,
            r@.len() == i,
            forall|j: int| 0 <= j < i ==> r@[j] == v@[j],
        decreases n - i,
    {
        r.push(v[i]);
        i = i + 1;
    }
    proof {
        assert(r@ =~= v@);
    }
    r
}

/// The engine state: the board, whose turn it is, the turn state, and the
/// legal move table of the side to move (source-square-major), with the
/// per-source summary `is_movable`.
pub struct Chess {
    pub board: Board,
    pub legal_moves: Vec<Vec<bool>>,
    pub is_movable: Vec<bool>,
    pub turn_color: PieceColor,
    pub turn_state: TurnState,
}

impl Chess {
    /// The table holds 64 rows of 64 entries.
    pub open spec fn table_wf(self) -> bool {
        &&& self.legal_moves.len() == 64
        &&& (forall|i: int| 0 <= i < 64 ==> #[trigger] self.legal_moves@[i]@.len() == 64)
        &&& self.is_movable.len() == 64
    }

    /// The table is exactly the legal-move set of the side to move on the
    /// current board, and `is_movable` summarizes its rows.
    pub open spec fn table_exact(self) -> bool {
        &&& forall|fx: int, fy: int, tx: int, ty: int|
            sq_in_bounds(fx, fy) && sq_in_bounds(tx, ty) ==> self.legal_moves@[sq_idx(
                fx,
                fy,
            )]@[sq_idx(tx, ty)] == #[trigger] spec_legal(self.board@, self.turn_color, fx, fy, tx, ty)
        &&& forall|fx: int, fy: int|
            sq_in_bounds(fx, fy) ==> self.is_movable@[sq_idx(fx, fy)] == #[trigger] spec_movable(
                self.board@,
                self.turn_color,
                fx,
                fy,
            )
    }

    /// The facts that hold whenever a turn change has completed: the side
    /// that just moved did not leave itself in check, the side to move has no
    /// stale en-passant flags, and no pawn is waiting to promote.
    pub open spec fn settled(self) -> bool {
        &&& !spec_in_check(self.board@, enemy_of(self.turn_color))
        &&& ep_clear(self.board@, self.turn_color)
        &&& none_promotable(self.board@)
    }

    /// The engine invariant: every public operation preserves it, and
    /// `new_game` establishes it.
    pub open spec fn wf(self) -> bool {
        &&& board_ok(self.board@)
        &&& self.table_wf()
        &&& match self.turn_state {
            TurnState::Normal => self.settled() && self.table_exact() && !spec_in_check(
                self.board@,
                self.turn_color,
            ) && spec_any_legal(self.board@, self.turn_color),
            TurnState::Check => self.settled() && self.table_exact() && spec_in_check(
                self.board@,
                self.turn_color,
            ) && spec_any_legal(self.board@, self.turn_color),
            TurnState::Checkmate => self.settled() && spec_in_check(self.board@, self.turn_color)
                && !spec_any_legal(self.board@, self.turn_color),
            TurnState::Stalemate => self.settled() && !spec_in_check(self.board@, self.turn_color)
                && !spec_any_legal(self.board@, self.turn_color),
            TurnState::PendingPromotion(x, y, c) => {
                &&& c == self.turn_color
                &&& x < 8
                &&& y < 8
                &&& piece_on(self.board@, x as int, y as int) == Some(
                    Piece {
                        piece_type: PieceType::Pawn { en_passant: false },
                        color: c,
                        has_moved: true,
                    },
                )
                &&& y as int == last_rank(c)
                &&& !spec_in_check(self.board@, c)
                &&& ep_clear(self.board@, enemy_of(c))
                &&& forall|x2: int, y2: int|
                    sq_in_bounds(x2, y2) && !(x2 == x as int && y2 == y as int) ==> !(
                    #[trigger] promotable_at(self.board@, x2, y2))
            },
        }
    }

    /// Whose turn it is and the state of that turn, for status display.
    pub fn current_status(&self) -> (r: (PieceColor, TurnState))
        ensures
            r == (self.turn_color, self.turn_state),
    {
        (self.turn_color, self.turn_state)
    }

    /// The piece currently on a square.
    pub fn get_piece(&self, pos: (usize, usize)) -> (r: Option<Piece>)
        requires
            wf_board(self.board@),
            pos.0 < 8,
            pos.1 < 8,
        ensures
            r == piece_on(self.board@, pos.0 as int, pos.1 as int),
    {
        self.board.get_piece(pos)
    }

    /// Locate the king of the given color and test whether its square is
    /// among the enemy's attacks.
    pub fn is_in_check(&self, color: PieceColor) -> (r: bool)
        requires
            wf_board(self.board@),
            kings_placed(self.board@),
            king_unique(self.board@, color),
        ensures
            r == spec_in_check(self.board@, color),
    {
        let ghost s = self.board@;
        let mut kings_position: Option<(usize, usize)> = None;

        // find the king of the given color
        let mut x: usize = 0;
        #[verifier::loop_isolation(false)]
        while x < 8
            invariant
                x <= 8,
                kings_position matches Some(q) ==> q.0 < 8 && q.1 < 8 && king_on(
                    s,
                    q.0 as int,
                    q.1 as int,
                    color,
                ),
                kings_position is None ==> forall|fx: int, fy: int|
                    sq_in_bounds(fx, fy) && fx < x ==> !king_on(s, fx, fy, color),
            decreases 8 - x,
        {
            let mut y: usize = 0;
            #[verifier::loop_isolation(false)]
            while y < 8
                invariant
                    x < 8,
                    y <= 8,
                    kings_position matches Some(q) ==> q.0 < 8 && q.1 < 8 && king_on(
                        s,
                        q.0 as int,
                        q.1 as int,
                        color,
                    ),
                    kings_position is None ==> forall|fx: int, fy: int|
                        sq_in_bounds(fx, fy) && (fx < x || (fx == x && fy < y)) ==> !king_on(
                            s,
                            fx,
                            fy,
                            color,
                        ),
                decreases 8 - y,
            {
                let found = match self.board.get_piece((x, y)) {
                    Some(piece) => piece.get_color() == color && matches!(
                        piece.piece_type,
                        PieceType::King,
                    ),
                    None => false,
                };
                if found {
                    kings_position = Some((x, y));
                }
                y = y + 1;
            }
            x = x + 1;
        }
        proof {
            if kings_position is None {
                let (wx, wy): (int, int) = choose|wx: int, wy: int|
                    sq_in_bounds(wx, wy) && king_on(s, wx, wy, color);
                assert(false);
            }
        }
        let kp = kings_position.unwrap();
        let enemy_color = color.get_enemy_color();
        let enemy_attacks = move_calculator::get_all_attacks(&self.board, enemy_color);
        let r = enemy_attacks[Board::to_index1d(kp)];
        proof {
            let qq = (kp.0 as int, kp.1 as int);
            assert(sq_in_bounds(qq.0, qq.1) && king_on(s, qq.0, qq.1, color));
            let kq = king_sq(s, color);
            assert(sq_in_bounds(kq.0, kq.1) && king_on(s, kq.0, kq.1, color));
            assert(kq == qq);
        }
        r
    }

    /// Simulate every pseudo-legal candidate of the piece on `from` on a
    /// snapshot of the board, discard each one after which the mover's own
    /// king is attacked, and restore the snapshot; then apply the extra
    /// castling filter. The board is left byte-for-byte as it was.
    fn eliminate_illegal_moves(&mut self, from: (usize, usize))
        requires
            old(self).table_wf(),
            wf_board(old(self).board@),
            kings_placed(old(self).board@),
            pawn_rows_ok(old(self).board@),
            king_unique(old(self).board@, old(self).turn_color),
            from.0 < 8,
            from.1 < 8,
            color_on(old(self).board@, from.0 as int, from.1 as int, old(self).turn_color),
            forall|tx: int, ty: int|
                sq_in_bounds(tx, ty) ==> old(self).legal_moves@[sq_idx(
                    from.0 as int,
                    from.1 as int,
                )]@[sq_idx(tx, ty)] == pseudo_move_ok(
                    old(self).board@,
                    from.0 as int,
                    from.1 as int,
                    tx,
                    ty,
                ),
        ensures
            final(self).board@ == old(self).board@,
            final(self).turn_color == old(self).turn_color,
            final(self).turn_state == old(self).turn_state,
            final(self).is_movable@ == old(self).is_movable@,
            final(self).table_wf(),
            forall|i: int|
                0 <= i < 64 && i != sq_idx(from.0 as int, from.1 as int)
                    ==> #[trigger] final(self).legal_moves@[i]@ == old(self).legal_moves@[i]@,
            forall|tx: int, ty: int|
                sq_in_bounds(tx, ty) ==> final(self).legal_moves@[sq_idx(
                    from.0 as int,
                    from.1 as int,
                )]@[sq_idx(tx, ty)] == spec_legal(
                    old(self).board@,
                    old(self).turn_color,
                    from.0 as int,
                    from.1 as int,
                    tx,
                    ty,
                ),
    {
        let ghost s = self.board@;
        let ghost c = self.turn_color;
        let ghost fxi = from.0 as int;
        let ghost fyi = from.1 as int;
        let f1 = Board::to_index1d(from);
        let mut moves = copy_row(&self.legal_moves[f1]);
        let board_saved = self.board.snapshot();
        let mut tx: usize = 0;
        #[verifier::loop_isolation(false)]
        while tx < 8
            invariant
                tx <= 8,
                self.board@ == s,
                self.turn_color == old(self).turn_color,
                self.turn_state == old(self).turn_state,
                self.legal_moves@ == old(self).legal_moves@,
                self.is_movable@ == old(self).is_movable@,
                moves.len() == 64,
                forall|ux: int, uy: int|
                    sq_in_bounds(ux, uy) ==> #[trigger] moves@[sq_idx(ux, uy)] == (pseudo_move_ok(
                        s,
                        fxi,
                        fyi,
                        ux,
                        uy,
                    ) && (ux < tx ==> !spec_in_check(spec_apply_move(s, fxi, fyi, ux, uy), c))),
            decreases 8 - tx,
        {
            let mut ty: usize = 0;
            #[verifier::loop_isolation(false)]
            while ty < 8
                invariant
                    tx < 8,
                    ty <= 8,
                    self.board@ == s,
                    self.turn_color == old(self).turn_color,
                    self.turn_state == old(self).turn_state,
                    self.legal_moves@ == old(self).legal_moves@,
                    self.is_movable@ == old(self).is_movable@,
                    moves.len() == 64,
                    forall|ux: int, uy: int|
                        sq_in_bounds(ux, uy) ==> #[trigger] moves@[sq_idx(ux, uy)] == (
                        pseudo_move_ok(
                            s,
                            fxi,
                            fyi,
                            ux,
                            uy,
                        ) && ((ux < tx || (ux == tx && uy < ty)) ==> !spec_in_check(
                            spec_apply_move(s, fxi, fyi, ux, uy),
                            c,
                        ))),
                decreases 8 - ty,
            {
                let t1 = Board::to_index1d((tx, ty));
                if moves[t1] {
                    proof {
                        assert(moves@[sq_idx(tx as int, ty as int)]);
                        assert(pseudo_move_ok(s, fxi, fyi, tx as int, ty as int));
                        lemma_apply_effects(s, c, fxi, fyi, tx as int, ty as int);
                    }
                    // temporarily execute the candidate
                    self.board.move_piece(from, (tx, ty));
                    if self.is_in_check(self.turn_color) {
                        moves.set(t1, false);
                    }
                    // recover the original state
                    self.board = board_saved.snapshot();
                }
                ty = ty + 1;
            }
            tx = tx + 1;
        }

        // special case: a castling king must also not pass through check
        self.eliminate_castling_illegal_moves(from, &mut moves, &board_saved);
        self.legal_moves.set(f1, moves);
    }

    /// For a castling candidate of the king on `from`, additionally discard
    /// it if the king is in check on its starting square or on the square it
    /// passes over, each tested by simulating the king's single step on a
    /// snapshot and restoring it.
    fn eliminate_castling_illegal_moves(
        &mut self,
        from: (usize, usize),
        moves: &mut Vec<bool>,
        board_saved: &Board,
    )
        requires
            wf_board(board_saved@),
            kings_placed(board_saved@),
            pawn_rows_ok(board_saved@),
            king_unique(board_saved@, old(self).turn_color),
            old(self).board@ == board_saved@,
            from.0 < 8,
            from.1 < 8,
            color_on(board_saved@, from.0 as int, from.1 as int, old(self).turn_color),
            old(moves).len() == 64,
            forall|tx: int, ty: int|
                sq_in_bounds(tx, ty) && old(moves)@[sq_idx(tx, ty)] ==> pseudo_move_ok(
                    board_saved@,
                    from.0 as int,
                    from.1 as int,
                    tx,
                    ty,
                ),
        ensures
            final(self).board@ == board_saved@,
            final(self).turn_color == old(self).turn_color,
            final(self).turn_state == old(self).turn_state,
            final(self).legal_moves@ == old(self).legal_moves@,
            final(self).is_movable@ == old(self).is_movable@,
            final(moves).len() == 64,
            forall|tx: int, ty: int|
                sq_in_bounds(tx, ty) ==> final(moves)@[sq_idx(tx, ty)] == (old(moves)@[sq_idx(
                    tx,
                    ty,
                )] && (castle_shape(
                    piece_on(board_saved@, from.0 as int, from.1 as int)->0,
                    from.0 as int,
                    tx,
                ) ==> !spec_in_check(
                    spec_apply_move(board_saved@, from.0 as int, from.1 as int, from.0 as int, from.1 as int),
                    old(self).turn_color,
                ) && !spec_in_check(
                    spec_apply_move(
                        board_saved@,
                        from.0 as int,
                        from.1 as int,
                        castle_mid(from.0 as int, tx),
                        from.1 as int,
                    ),
                    old(self).turn_color,
                ))),
    {
        // only a king can castle
        let piece = self.board.get_piece(from).unwrap();
        if !matches!(piece.piece_type, PieceType::King) {
            return ;
        }
        self.castle_filter_side(from, 1, moves, board_saved);
        self.castle_filter_side(from, -1, moves, board_saved);
    }

    /// The castling filter for one direction.
    fn castle_filter_side(
        &mut self,
        from: (usize, usize),
        x_dir: i32,
        moves: &mut Vec<bool>,
        board_saved: &Board,
    )
        requires
            wf_board(board_saved@),
            kings_placed(board_saved@),
            pawn_rows_ok(board_saved@),
            king_unique(board_saved@, old(self).turn_color),
            old(self).board@ == board_saved@,
            from.0 < 8,
            from.1 < 8,
            color_on(board_saved@, from.0 as int, from.1 as int, old(self).turn_color),
            piece_on(board_saved@, from.0 as int, from.1 as int)->0.piece_type is King,
            x_dir == 1 || x_dir == -1,
            old(moves).len() == 64,
            forall|tx: int, ty: int|
                sq_in_bounds(tx, ty) && old(moves)@[sq_idx(tx, ty)] ==> pseudo_move_ok(
                    board_saved@,
                    from.0 as int,
                    from.1 as int,
                    tx,
                    ty,
                ),
        ensures
            final(self).board@ == board_saved@,
            final(self).turn_color == old(self).turn_color,
            final(self).turn_state == old(self).turn_state,
            final(self).legal_moves@ == old(self).legal_moves@,
            final(self).is_movable@ == old(self).is_movable@,
            final(moves).len() == 64,
            forall|tx: int, ty: int|
                sq_in_bounds(tx, ty) ==> final(moves)@[sq_idx(tx, ty)] == (old(moves)@[sq_idx(
                    tx,
                    ty,
                )] && (tx == from.0 as int + 2 * (x_dir as int) ==> !spec_in_check(
                    spec_apply_move(board_saved@, from.0 as int, from.1 as int, from.0 as int, from.1 as int),
                    old(self).turn_color,
                ) && !spec_in_check(
                    spec_apply_move(
                        board_saved@,
                        from.0 as int,
                        from.1 as int,
                        from.0 as int + (x_dir as int),
                        from.1 as int,
                    ),
                    old(self).turn_color,
                ))),
    {
        let ghost s = board_saved@;
        let ghost c = self.turn_color;
        let ghost fxi = from.0 as int;
        let ghost fyi = from.1 as int;
        let castling_dst = (from.0 as i32 + x_dir * 2, from.1 as i32);
        if !Board::is_position_in_bound(castling_dst) {
            return ;
        }
        let dst = (castling_dst.0 as usize, castling_dst.1 as usize);
        let d1 = Board::to_index1d(dst);
        if !moves[d1] {
            proof {
                assert forall|tx: int, ty: int|
                    sq_in_bounds(tx, ty) && tx == fxi + 2 * (x_dir as int) && moves@[sq_idx(
                        tx,
                        ty,
                    )] implies false by {
                    assert(pseudo_move_ok(s, fxi, fyi, tx, ty));
                    assert(!king_step(fxi, fyi, tx, ty));
                    assert(ty == fyi);
                }
            }
            return ;
        }
        proof {
            assert(pseudo_move_ok(s, fxi, fyi, dst.0 as int, dst.1 as int));
            lemma_self_move(s, c, fxi, fyi);
        }

        // move the king one square at a time toward the castling destination
        // and test for check after each step
        self.board.move_piece(from, from);
        let check_at_start = self.is_in_check(self.turn_color);
        self.board = board_saved.snapshot();

        let mid = ((from.0 as i32 + x_dir) as usize, from.1);
        proof {
            // the transit square is empty by the castling conditions, so the
            // single step is itself a pseudo-legal king move
            assert(castle_ok(s, piece_on(s, fxi, fyi)->0.color, fyi, x_dir as int));
            assert(king_step(fxi, fyi, fxi + (x_dir as int), fyi));
            assert(empty_on(s, fxi + (x_dir as int), fyi));
            assert(pseudo_move_ok(s, fxi, fyi, mid.0 as int, mid.1 as int));
            lemma_apply_effects(s, c, fxi, fyi, mid.0 as int, mid.1 as int);
        }
        self.board.move_piece(from, mid);
        let check_at_transit = self.is_in_check(self.turn_color);
        self.board = board_saved.snapshot();

        if check_at_start || check_at_transit {
            moves.set(d1, false);
        }
        proof {
            assert forall|tx: int, ty: int|
                sq_in_bounds(tx, ty) && tx == fxi + 2 * (x_dir as int) && !(tx == dst.0 as int && ty
                    == dst.1 as int) implies !old(moves)@[sq_idx(tx, ty)] by {
                if old(moves)@[sq_idx(tx, ty)] {
                    assert(pseudo_move_ok(s, fxi, fyi, tx, ty));
                    assert(!king_step(fxi, fyi, tx, ty));
                    assert(ty == fyi);
                }
            }
        }
    }

    /// Rebuild the whole legal move table for the side to move: reset it,
    /// then generate and filter the moves of each of its pieces.
    fn compute_each_legal_moves(&mut self)
        requires
            old(self).table_wf(),
            wf_board(old(self).board@),
            kings_placed(old(self).board@),
            pawn_rows_ok(old(self).board@),
            king_unique(old(self).board@, old(self).turn_color),
        ensures
            final(self).board@ == old(self).board@,
            final(self).turn_color == old(self).turn_color,
            final(self).turn_state == old(self).turn_state,
            final(self).is_movable@ == old(self).is_movable@,
            final(self).table_wf(),
            forall|fx: int, fy: int, tx: int, ty: int|
                sq_in_bounds(fx, fy) && sq_in_bounds(tx, ty) ==> final(self).legal_moves@[sq_idx(
                    fx,
                    fy,
                )]@[sq_idx(tx, ty)] == #[trigger] spec_legal(
                    old(self).board@,
                    old(self).turn_color,
                    fx,
                    fy,
                    tx,
                    ty,
                ),
    {
        let ghost s = self.board@;
        let ghost c = self.turn_color;
        let mut x: usize = 0;
        #[verifier::loop_isolation(false)]
        while x < 8
            invariant
                x <= 8,
                self.board@ == s,
                self.turn_color == old(self).turn_color,
                self.turn_state == old(self).turn_state,
                self.is_movable@ == old(self).is_movable@,
                self.table_wf(),
                forall|fx: int, fy: int, tx: int, ty: int|
                    sq_in_bounds(fx, fy) && sq_in_bounds(tx, ty) && fx < x
                        ==> self.legal_moves@[sq_idx(fx, fy)]@[sq_idx(tx, ty)]
                        == #[trigger] spec_legal(s, c, fx, fy, tx, ty),
            decreases 8 - x,
        {
            let mut y: usize = 0;
            #[verifier::loop_isolation(false)]
            while y < 8
                invariant
                    x < 8,
                    y <= 8,
                    self.board@ == s,
                    self.turn_color == old(self).turn_color,
                    self.turn_state == old(self).turn_state,
                    self.is_movable@ == old(self).is_movable@,
                    self.table_wf(),
                    forall|fx: int, fy: int, tx: int, ty: int|
                        sq_in_bounds(fx, fy) && sq_in_bounds(tx, ty) && (fx < x || (fx == x && fy
                            < y)) ==> self.legal_moves@[sq_idx(fx, fy)]@[sq_idx(tx, ty)]
                            == #[trigger] spec_legal(s, c, fx, fy, tx, ty),
                decreases 8 - y,
            {
                let f1 = Board::to_index1d((x, y));
                if self.board.is_color_on((x, y), self.turn_color) {
                    let mut row = move_calculator::fresh_moves();
                    move_calculator::get_moves(&self.board, (x, y), &mut row);
                    self.legal_moves.set(f1, row);
                    self.eliminate_illegal_moves((x, y));
                } else {
                    self.legal_moves.set(f1, move_calculator::fresh_moves());
                    proof {
                        assert forall|tx: int, ty: int| sq_in_bounds(tx, ty) implies !spec_legal(
                            s,
                            c,
                            x as int,
                            y as int,
                            tx,
                            ty,
                        ) by {}
                    }
                }
                y = y + 1;
            }
            x = x + 1;
        }
    }

    /// Summarize each row of the legal move table: whether the piece on that
    /// source square has any legal destination.
    fn compute_is_movable(&mut self)
        requires
            old(self).table_wf(),
        ensures
            final(self).board@ == old(self).board@,
            final(self).turn_color == old(self).turn_color,
            final(self).turn_state == old(self).turn_state,
            final(self).legal_moves@ == old(self).legal_moves@,
            final(self).table_wf(),
            forall|i: int|
                0 <= i < 64 ==> #[trigger] final(self).is_movable@[i] == row_any(
                    final(self).legal_moves@[i]@,
                ),
    {
        let mut f1: usize = 0;
        #[verifier::loop_isolation(false)]
        while f1 < 64
            invariant
                f1 <= 64,
                self.board@ == old(self).board@,
                self.turn_color == old(self).turn_color,
                self.turn_state == old(self).turn_state,
                self.legal_moves@ == old(self).legal_moves@,
                self.table_wf(),
                forall|i: int|
                    0 <= i < f1 ==> #[trigger] self.is_movable@[i] == row_any(
                        self.legal_moves@[i]@,
                    ),
            decreases 64 - f1,
        {
            let mut any = false;
            let mut t1: usize = 0;
            #[verifier::loop_isolation(false)]
            while t1 < 64
                invariant
                    f1 < 64,
                    t1 <= 64,
                    any == exists|j: int| 0 <= j < t1 && self.legal_moves@[f1 as int]@[j],
                decreases 64 - t1,
            {
                let ghost before = any;
                if self.legal_moves[f1][t1] {
                    any = true;
                }
                proof {
                    if any {
                        if before {
                            let j = choose|j: int| 0 <= j < t1 && self.legal_moves@[f1 as int]@[j];
                            assert(0 <= j < t1 + 1 && self.legal_moves@[f1 as int]@[j]);
                        } else {
                            assert(0 <= t1 < t1 + 1 && self.legal_moves@[f1 as int]@[t1 as int]);
                        }
                    }
                }
                t1 = t1 + 1;
            }
            self.is_movable.set(f1, any);
            f1 = f1 + 1;
        }
    }

    /// Rebuild the legal move table, then decide the terminal conditions: if
    /// the side to move has no legal move at all, it is checkmated if it was
    /// in check and stalemated otherwise.
    fn compute_moves(&mut self)
        requires
            old(self).table_wf(),
            wf_board(old(self).board@),
            kings_placed(old(self).board@),
            pawn_rows_ok(old(self).board@),
            king_unique(old(self).board@, old(self).turn_color),
            old(self).turn_state is Normal || old(self).turn_state is Check,
            (old(self).turn_state is Check) == spec_in_check(
                old(self).board@,
                old(self).turn_color,
            ),
        ensures
            final(self).board@ == old(self).board@,
            final(self).turn_color == old(self).turn_color,
            final(self).table_wf(),
            final(self).table_exact(),
            final(self).turn_state == spec_next_state(old(self).board@, old(self).turn_color),
    {
        let ghost s = self.board@;
        let ghost c = self.turn_color;
        self.compute_each_legal_moves();
        self.compute_is_movable();
        proof {
            // each summary entry says exactly whether that piece may move
            assert forall|fx: int, fy: int| sq_in_bounds(fx, fy) implies self.is_movable@[sq_idx(
                fx,
                fy,
            )] == spec_movable(s, c, fx, fy) by {
                crate::board::lemma_flat_square(sq_idx(fx, fy));
                if row_any(self.legal_moves@[sq_idx(fx, fy)]@) {
                    let j = choose|j: int|
                        0 <= j < 64 && self.legal_moves@[sq_idx(fx, fy)]@[j];
                    crate::board::lemma_flat_square(j);
                    assert(spec_legal(s, c, fx, fy, j % 8, j / 8));
                }
                if spec_movable(s, c, fx, fy) {
                    let (tx, ty): (int, int) = choose|tx: int, ty: int|
                        #[trigger] spec_legal(s, c, fx, fy, tx, ty);
                    assert(self.legal_moves@[sq_idx(fx, fy)]@[sq_idx(tx, ty)]);
                    assert(row_any(self.legal_moves@[sq_idx(fx, fy)]@));
                }
            }
        }

        // if no piece of the side to move has a legal move:
        //   checkmate when in check, stalemate otherwise
        let mut any = false;
        let mut i: usize = 0;
        #[verifier::loop_isolation(false)]
        while i < 64
            invariant
                i <= 64,
                any == exists|j: int| 0 <= j < i && self.is_movable@[j],
            decreases 64 - i,
        {
            let ghost before = any;
            if self.is_movable[i] {
                any = true;
            }
            proof {
                if any {
                    if before {
                        let j = choose|j: int| 0 <= j < i && self.is_movable@[j];
                        assert(0 <= j < i + 1 && self.is_movable@[j]);
                    } else {
                        assert(0 <= i < i + 1 && self.is_movable@[i as int]);
                    }
                }
            }
            i = i + 1;
        }
        proof {
            if any {
                let j = choose|j: int| 0 <= j < 64 && self.is_movable@[j];
                crate::board::lemma_flat_square(j);
                assert(spec_movable(s, c, j % 8, j / 8));
                let (tx, ty): (int, int) = choose|tx: int, ty: int|
                    #[trigger] spec_legal(s, c, j % 8, j / 8, tx, ty);
                assert(spec_any_legal(s, c));
            } else {
                if spec_any_legal(s, c) {
                    let (fx, fy, tx, ty): (int, int, int, int) = choose|
                        fx: int,
                        fy: int,
                        tx: int,
                        ty: int,
                    | #[trigger] spec_legal(s, c, fx, fy, tx, ty);
                    assert(spec_movable(s, c, fx, fy));
                    assert(0 <= sq_idx(fx, fy) < 64 && self.is_movable@[sq_idx(fx, fy)]);
                }
            }
        }
        if !any {
            self.turn_state = if matches!(self.turn_state, TurnState::Check) {
                TurnState::Checkmate
            } else {
                TurnState::Stalemate
            };
        }
    }

    /// The sweep run right after a move: close the opponent's one-ply
    /// en-passant windows, and if a pawn now stands on its last rank, suspend
    /// the turn in `PendingPromotion`. Returns whether the turn change is
    /// delayed for a promotion choice.
    fn post_move_update(&mut self) -> (delayed: bool)
        requires
            wf_board(old(self).board@),
            old(self).table_wf(),
        ensures
            final(self).board@ == clear_ep_flags(old(self).board@, enemy_of(old(self).turn_color)),
            final(self).turn_color == old(self).turn_color,
            final(self).legal_moves@ == old(self).legal_moves@,
            final(self).is_movable@ == old(self).is_movable@,
            final(self).table_wf(),
            delayed == exists|x: int, y: int|
                sq_in_bounds(x, y) && #[trigger] promotable_at(old(self).board@, x, y),
            !delayed ==> final(self).turn_state == old(self).turn_state,
            delayed ==> (final(self).turn_state matches TurnState::PendingPromotion(px, py, pc)
                && px < 8 && py < 8 && promotable_at(old(self).board@, px as int, py as int)
                && color_on(old(self).board@, px as int, py as int, pc)),
    {
        let ghost s0 = self.board@;
        let ghost sweep = enemy_of(old(self).turn_color);
        let enemy = self.turn_color.get_enemy_color();
        let mut delayed = false;
        let mut x: usize = 0;
        #[verifier::loop_isolation(false)]
        while x < 8
            invariant
                x <= 8,
                wf_board(self.board@),
                self.turn_color == old(self).turn_color,
                self.legal_moves@ == old(self).legal_moves@,
                self.is_movable@ == old(self).is_movable@,
                forall|ux: int, uy: int|
                    sq_in_bounds(ux, uy) && ux < x ==> #[trigger] piece_on(self.board@, ux, uy) == (
                    match piece_on(s0, ux, uy) {
                        Some(p) => Some(cleared_piece(p, sweep)),
                        None => None,
                    }),
                forall|ux: int, uy: int|
                    sq_in_bounds(ux, uy) && ux >= x ==> #[trigger] piece_on(self.board@, ux, uy)
                        == piece_on(s0, ux, uy),
                delayed == exists|ux: int, uy: int|
                    sq_in_bounds(ux, uy) && ux < x && #[trigger] promotable_at(s0, ux, uy),
                !delayed ==> self.turn_state == old(self).turn_state,
                delayed ==> (self.turn_state matches TurnState::PendingPromotion(px, py, pc)
                    && px < 8 && py < 8 && promotable_at(s0, px as int, py as int) && color_on(
                    s0,
                    px as int,
                    py as int,
                    pc,
                )),
            decreases 8 - x,
        {
            let mut y: usize = 0;
            #[verifier::loop_isolation(false)]
            while y < 8
                invariant
                    x < 8,
                    y <= 8,
                    wf_board(self.board@),
                    self.turn_color == old(self).turn_color,
                    self.legal_moves@ == old(self).legal_moves@,
                    self.is_movable@ == old(self).is_movable@,
                    forall|ux: int, uy: int|
                        sq_in_bounds(ux, uy) && (ux < x || (ux == x && uy < y))
                            ==> #[trigger] piece_on(self.board@, ux, uy) == (match piece_on(
                            s0,
                            ux,
                            uy,
                        ) {
                            Some(p) => Some(cleared_piece(p, sweep)),
                            None => None,
                        }),
                    forall|ux: int, uy: int|
                        sq_in_bounds(ux, uy) && (ux > x || (ux == x && uy >= y))
                            ==> #[trigger] piece_on(self.board@, ux, uy) == piece_on(s0, ux, uy),
                    delayed == exists|ux: int, uy: int|
                        sq_in_bounds(ux, uy) && (ux < x || (ux == x && uy < y))
                            && #[trigger] promotable_at(s0, ux, uy),
                    !delayed ==> self.turn_state == old(self).turn_state,
                    delayed ==> (self.turn_state matches TurnState::PendingPromotion(px, py, pc)
                        && px < 8 && py < 8 && promotable_at(s0, px as int, py as int) && color_on(
                        s0,
                        px as int,
                        py as int,
                        pc,
                    )),
                decreases 8 - y,
            {
                let ghost delayed_before = delayed;
                let ghost b_before = self.board@;
                let i = Board::to_index1d((x, y));
                proof {
                    assert(piece_on(self.board@, x as int, y as int) == piece_on(
                        s0,
                        x as int,
                        y as int,
                    ));
                    assert(self.board.cells@[i as int] == piece_on(s0, x as int, y as int));
                }
                match self.board.cells[i] {
                    None => {},
                    Some(piece) => {
                        // close the opponent's en passant window
                        if piece.get_color() == enemy && matches!(
                            piece.piece_type,
                            PieceType::Pawn { .. },
                        ) {
                            let mut cleared = piece;
                            cleared.piece_type = PieceType::Pawn { en_passant: false };
                            self.board.cells.set(i, Some(cleared));
                        }

                        // a pawn that reached its last rank must promote
                        let promotion_row: usize = if piece.get_color() == PieceColor::White {
                            0
                        } else {
                            7
                        };
                        if matches!(piece.piece_type, PieceType::Pawn { .. }) && y
                            == promotion_row {
                            self.turn_state = TurnState::PendingPromotion(x, y, piece.get_color());
                            delayed = true;
                        }
                    },
                }
                proof {
                    assert forall|ux: int, uy: int|
                        sq_in_bounds(ux, uy) && !(ux == x as int && uy == y as int) implies
                    #[trigger] piece_on(self.board@, ux, uy) == piece_on(b_before, ux, uy) by {}
                    assert forall|ux: int, uy: int|
                        sq_in_bounds(ux, uy) && (ux < x as int || (ux == x as int && uy < y as int
                            + 1)) implies #[trigger] piece_on(self.board@, ux, uy) == (
                    match piece_on(s0, ux, uy) {
                        Some(p) => Some(cleared_piece(p, sweep)),
                        None => None,
                    }) by {
                        if !(ux == x as int && uy == y as int) {
                            assert(piece_on(b_before, ux, uy) == (match piece_on(s0, ux, uy) {
                                Some(p) => Some(cleared_piece(p, sweep)),
                                None => None,
                            }));
                        }
                    }
                    if delayed == delayed_before {
                        if delayed {
                            let (ux, uy): (int, int) = choose|ux: int, uy: int|
                                sq_in_bounds(ux, uy) && (ux < x as int || (ux == x as int && uy < y
                                    as int)) && #[trigger] promotable_at(s0, ux, uy);
                            assert(sq_in_bounds(ux, uy) && (ux < x as int || (ux == x as int && uy
                                < y as int + 1)) && promotable_at(s0, ux, uy));
                        }
                    } else {
                        assert(promotable_at(s0, x as int, y as int));
                    }
                }
                y = y + 1;
            }
            x = x + 1;
        }
        proof {
            assert forall|j: int| 0 <= j < 64 implies self.board@[j] == clear_ep_flags(
                s0,
                sweep,
            )[j] by {
                crate::board::lemma_flat_square(j);
                assert(piece_on(self.board@, j % 8, j / 8) == (match piece_on(s0, j % 8, j / 8) {
                    Some(p) => Some(cleared_piece(p, sweep)),
                    None => None,
                }));
            }
            assert(self.board@ =~= clear_ep_flags(s0, sweep));
        }
        delayed
    }

    /// Flip the side to move, decide whether it starts its ply in check, and
    /// recompute its legal moves, entering a terminal state if it has none.
    fn change_turn(&mut self)
        requires
            old(self).table_wf(),
            board_ok(old(self).board@),
            !spec_in_check(old(self).board@, old(self).turn_color),
            ep_clear(old(self).board@, enemy_of(old(self).turn_color)),
            none_promotable(old(self).board@),
        ensures
            final(self).board@ == old(self).board@,
            final(self).turn_color == enemy_of(old(self).turn_color),
            final(self).turn_state == spec_next_state(
                old(self).board@,
                enemy_of(old(self).turn_color),
            ),
            final(self).wf(),
    {
        self.turn_color = self.turn_color.get_enemy_color();

        self.turn_state = if self.is_in_check(self.turn_color) {
            TurnState::Check
        } else {
            TurnState::Normal
        };

        self.compute_moves();
    }

    /// An attempted move is carried out: the turn is in play, both squares
    /// are on the board, and the destination is in the mover's legal set.
    pub open spec fn move_allowed(self, from: (usize, usize), to: (usize, usize)) -> bool {
        &&& (self.turn_state is Normal || self.turn_state is Check)
        &&& from.0 < 8
        &&& from.1 < 8
        &&& to.0 < 8
        &&& to.1 < 8
        &&& spec_legal(
            self.board@,
            self.turn_color,
            from.0 as int,
            from.1 as int,
            to.0 as int,
            to.1 as int,
        )
    }

    /// Try to play a move. A move that is out of bounds, not legal for the
    /// side to move, or attempted while the turn is suspended or over, is
    /// rejected and changes nothing. A legal move is executed; if its pawn
    /// reached the last rank the turn suspends for a promotion choice,
    /// otherwise the turn passes to the opponent.
    pub fn attempt_move(&mut self, from: (usize, usize), to: (usize, usize)) -> (r: MoveOutcome)
        requires
            old(self).wf(),
        ensures
            final(self).wf(),
            (r == MoveOutcome::Rejected) == !old(self).move_allowed(from, to),
            !old(self).move_allowed(from, to) ==> final(self).board@ == old(self).board@
                && final(self).turn_state == old(self).turn_state && final(self).turn_color == old(
                self,
            ).turn_color,
            old(self).move_allowed(from, to) ==> final(self).board@ == clear_ep_flags(
                spec_apply_move(
                    old(self).board@,
                    from.0 as int,
                    from.1 as int,
                    to.0 as int,
                    to.1 as int,
                ),
                enemy_of(old(self).turn_color),
            ),
            old(self).move_allowed(from, to) ==> ((r == MoveOutcome::RequiresPromotionChoice) == (
            piece_on(old(self).board@, from.0 as int, from.1 as int)->0.piece_type is Pawn && to.1
                as int == last_rank(old(self).turn_color))),
            r == MoveOutcome::RequiresPromotionChoice ==> final(self).turn_state
                == TurnState::PendingPromotion(to.0, to.1, old(self).turn_color)
                && final(self).turn_color == old(self).turn_color,
            old(self).move_allowed(from, to) && r != MoveOutcome::RequiresPromotionChoice ==> r
                == MoveOutcome::Moved && final(self).turn_color == enemy_of(old(self).turn_color)
                && final(self).turn_state == spec_next_state(
                final(self).board@,
                enemy_of(old(self).turn_color),
            ),
    {
        match self.turn_state {
            TurnState::Normal | TurnState::Check => {},
            _ => {
                return MoveOutcome::Rejected;
            },
        }
        if !(from.0 < 8 && from.1 < 8 && to.0 < 8 && to.1 < 8) {
            return MoveOutcome::Rejected;
        }
        let ghost s = self.board@;
        let ghost c = self.turn_color;
        let ghost fxi = from.0 as int;
        let ghost fyi = from.1 as int;
        let ghost txi = to.0 as int;
        let ghost tyi = to.1 as int;
        let f1 = Board::to_index1d(from);
        let t1 = Board::to_index1d(to);
        if !self.legal_moves[f1][t1] {
            proof {
                assert(!spec_legal(s, c, fxi, fyi, txi, tyi));
            }
            return MoveOutcome::Rejected;
        }
        proof {
            assert(spec_legal(s, c, fxi, fyi, txi, tyi));
            lemma_apply_effects(s, c, fxi, fyi, txi, tyi);
        }
        self.board.move_piece(from, to);
        let ghost s_applied = self.board@;
        proof {
            lemma_clear_ep_effects(s_applied, enemy_of(c));
            lemma_check_congruence(s_applied, clear_ep_flags(s_applied, enemy_of(c)), c);
        }
        let delayed = self.post_move_update();
        proof {
            if exists|x2: int, y2: int|
                sq_in_bounds(x2, y2) && #[trigger] promotable_at(s_applied, x2, y2) {
                let (wx, wy): (int, int) = choose|wx: int, wy: int|
                    sq_in_bounds(wx, wy) && #[trigger] promotable_at(s_applied, wx, wy);
                assert(wx == txi && wy == tyi);
            }
            if piece_on(s, fxi, fyi)->0.piece_type is Pawn && tyi == last_rank(c) {
                assert(sq_in_bounds(txi, tyi) && promotable_at(s_applied, txi, tyi));
            }
        }
        if delayed {
            proof {
                let b2 = self.board@;
                match self.turn_state {
                    TurnState::PendingPromotion(px, py, pc) => {
                        assert(promotable_at(s_applied, px as int, py as int));
                    },
                    _ => {},
                }
                assert(promotable_at(s_applied, txi, tyi));
                assert(piece_on(b2, txi, tyi) == Some(
                    Piece {
                        piece_type: PieceType::Pawn { en_passant: false },
                        color: c,
                        has_moved: true,
                    },
                ));
                assert forall|x2: int, y2: int|
                    sq_in_bounds(x2, y2) && !(x2 == txi && y2 == tyi) implies !promotable_at(
                    b2,
                    x2,
                    y2,
                ) by {
                    assert(promotable_at(b2, x2, y2) == promotable_at(s_applied, x2, y2));
                }
                assert(self.wf());
            }
            MoveOutcome::RequiresPromotionChoice
        } else {
            proof {
                assert(none_promotable(self.board@)) by {
                    assert forall|x2: int, y2: int| sq_in_bounds(x2, y2) implies !promotable_at(
                        self.board@,
                        x2,
                        y2,
                    ) by {
                        assert(promotable_at(self.board@, x2, y2) == promotable_at(
                            s_applied,
                            x2,
                            y2,
                        ));
                    }
                }
            }
            self.change_turn();
            MoveOutcome::Moved
        }
    }

    /// Resolve a pending promotion: replace the waiting pawn's kind with the
    /// chosen one and complete the suspended turn change. A king or pawn
    /// choice, or a call while no promotion is pending, is rejected and
    /// changes nothing.
    pub fn resolve_promotion(&mut self, choice: PieceType)
        requires
            old(self).wf(),
        ensures
            final(self).wf(),
            old(self).turn_state matches TurnState::PendingPromotion(px, py, pc) ==> (!(choice
                is King) && !(choice is Pawn) ==> final(self).board@ == promote_at(
                old(self).board@,
                px as int,
                py as int,
                choice,
            ) && final(self).turn_color == enemy_of(pc) && final(self).turn_state
                == spec_next_state(final(self).board@, enemy_of(pc))),
            (!(old(self).turn_state is PendingPromotion) || choice is King || choice is Pawn) ==> (
            final(self).board@ == old(self).board@ && final(self).turn_state == old(self).turn_state
                && final(self).turn_color == old(self).turn_color),
    {
        let (px, py, pc) = match self.turn_state {
            TurnState::PendingPromotion(px, py, pc) => (px, py, pc),
            _ => {
                return ;
            },
        };
        if matches!(choice, PieceType::King) || matches!(choice, PieceType::Pawn { .. }) {
            return ;
        }
        let ghost s = self.board@;
        let i = Board::to_index1d((px, py));
        let mut piece = self.board.cells[i].unwrap();
        piece.promote(choice);
        self.board.cells.set(i, Some(piece));
        proof {
            assert(self.board@ =~= promote_at(s, px as int, py as int, choice));
            lemma_promote_effects(s, px as int, py as int, choice);
            lemma_check_congruence(s, self.board@, pc);
            assert(ep_clear(self.board@, enemy_of(pc))) by {
                assert forall|x2: int, y2: int| sq_in_bounds(x2, y2) implies !ep_pawn_on(
                    self.board@,
                    x2,
                    y2,
                    enemy_of(pc),
                ) by {
                    assert(ep_pawn_on(self.board@, x2, y2, enemy_of(pc)) == ep_pawn_on(
                        s,
                        x2,
                        y2,
                        enemy_of(pc),
                    ));
                }
            }
            assert(none_promotable(self.board@)) by {
                assert forall|x2: int, y2: int| sq_in_bounds(x2, y2) implies !promotable_at(
                    self.board@,
                    x2,
                    y2,
                ) by {
                    if !(x2 == px as int && y2 == py as int) {
                        assert(promotable_at(self.board@, x2, y2) == promotable_at(s, x2, y2));
                    }
                }
            }
        }
        self.change_turn();
    }

    /// The legal destinations of the piece on the given square: empty when
    /// the square is out of bounds or empty, when the piece belongs to the
    /// side not on move, or when the turn is suspended or over.
    pub fn legal_destinations(&self, square: (usize, usize)) -> (r: Vec<(usize, usize)>)
        requires
            self.wf(),
        ensures
            forall|i: int|
                0 <= i < r@.len() ==> (#[trigger] r@[i]).0 < 8 && r@[i].1 < 8 && spec_legal(
                    self.board@,
                    self.turn_color,
                    square.0 as int,
                    square.1 as int,
                    r@[i].0 as int,
                    r@[i].1 as int,
                ),
            (self.turn_state is Normal || self.turn_state is Check) && square.0 < 8 && square.1 < 8
                ==> forall|tx: usize, ty: usize|
                tx < 8 && ty < 8 && #[trigger] spec_legal(
                    self.board@,
                    self.turn_color,
                    square.0 as int,
                    square.1 as int,
                    tx as int,
                    ty as int,
                ) ==> r@.contains((tx, ty)),
            !((self.turn_state is Normal || self.turn_state is Check) && square.0 < 8 && square.1
                < 8) ==> r@.len() == 0,
    {
        match self.turn_state {
            TurnState::Normal | TurnState::Check => {},
            _ => {
                return Vec::new();
            },
        }
        if !(square.0 < 8 && square.1 < 8) {
            return Vec::new();
        }
        let ghost s = self.board@;
        let ghost c = self.turn_color;
        let f1 = Board::to_index1d(square);
        let mut r: Vec<(usize, usize)> = Vec::new();
        let mut tx: usize = 0;
        #[verifier::loop_isolation(false)]
        while tx < 8
            invariant
                tx <= 8,
                forall|i: int|
                    0 <= i < r@.len() ==> (#[trigger] r@[i]).0 < 8 && r@[i].1 < 8 && spec_legal(
                        s,
                        c,
                        square.0 as int,
                        square.1 as int,
                        r@[i].0 as int,
                        r@[i].1 as int,
                    ),
                forall|ux: usize, uy: usize|
                    ux < 8 && uy < 8 && (ux as int) < tx as int && #[trigger] spec_legal(
                        s,
                        c,
                        square.0 as int,
                        square.1 as int,
                        ux as int,
                        uy as int,
                    ) ==> r@.contains((ux, uy)),
            decreases 8 - tx,
        {
            let mut ty: usize = 0;
            #[verifier::loop_isolation(false)]
            while ty < 8
                invariant
                    tx < 8,
                    ty <= 8,
                    forall|i: int|
                        0 <= i < r@.len() ==> (#[trigger] r@[i]).0 < 8 && r@[i].1 < 8 && spec_legal(
                            s,
                            c,
                            square.0 as int,
                            square.1 as int,
                            r@[i].0 as int,
                            r@[i].1 as int,
                        ),
                    forall|ux: usize, uy: usize|
                        ux < 8 && uy < 8 && ((ux as int) < tx as int || (ux == tx && (uy as int)
                            < ty as int)) && #[trigger] spec_legal(
                            s,
                            c,
                            square.0 as int,
                            square.1 as int,
                            ux as int,
                            uy as int,
                        ) ==> r@.contains((ux, uy)),
                decreases 8 - ty,
            {
                let ghost r_before = r@;
                if self.legal_moves[f1][Board::to_index1d((tx, ty))] {
                    proof {
                        assert(spec_legal(s, c, square.0 as int, square.1 as int, tx as int, ty
                            as int));
                    }
                    r.push((tx, ty));
                }
                proof {
                    assert forall|ux: usize, uy: usize|
                        ux < 8 && uy < 8 && ((ux as int) < tx as int || (ux == tx && (uy as int)
                            < ty as int + 1)) && #[trigger] spec_legal(
                            s,
                            c,
                            square.0 as int,
                            square.1 as int,
                            ux as int,
                            uy as int,
                        ) implies r@.contains((ux, uy)) by {
                        if ux == tx && uy == ty {
                            assert(r@[r@.len() - 1] == (tx, ty));
                        } else {
                            assert(r_before.contains((ux, uy)));
                            let j = choose|j: int| 0 <= j < r_before.len() && r_before[j] == (ux, uy);
                            assert(r@[j] == (ux, uy));
                        }
                    }
                }
                ty = ty + 1;
            }
            tx = tx + 1;
        }
        r
    }

    /// A fresh engine with an empty board, White to move.
    pub fn new() -> (game: Chess)
        ensures
            game.table_wf(),
            wf_board(game.board@),
            forall|x: int, y: int|
                sq_in_bounds(x, y) ==> #[trigger] piece_on(game.board@, x, y) is None,
            game.turn_color == PieceColor::White,
            game.turn_state == TurnState::Normal,
    {
        let mut legal_moves: Vec<Vec<bool>> = Vec::new();
        let mut i: usize = 0;
        #[verifier::loop_isolation(false)]
        while i < 64
            invariant
                i <= 64,
                legal_moves@.len() == i,
                forall|j: int| 0 <= j < i ==> #[trigger] legal_moves@[j]@.len() == 64,
            decreases 64 - i,
        {
            legal_moves.push(move_calculator::fresh_moves());
            i = i + 1;
        }
        Chess {
            board: Board::new(),
            legal_moves,
            is_movable: move_calculator::fresh_moves(),
            turn_color: PieceColor::White,
            turn_state: TurnState::Normal,
        }
    }

    /// Set up the standard initial position, compute White's opening moves,
    /// and return the ready engine.
    pub fn init(self) -> (game: Chess)
        requires
            self.table_wf(),
        ensures
            game.wf(),
            forall|x: int, y: int|
                sq_in_bounds(x, y) ==> #[trigger] piece_on(game.board@, x, y)
                    == crate::board::initial_at(x, y),
            game.turn_color == PieceColor::White,
            game.turn_state == (if spec_any_legal(game.board@, PieceColor::White) {
                TurnState::Normal
            } else {
                TurnState::Stalemate
            }),
    {
        let mut game = self;
        game.board = Board::new().init();
        game.turn_color = PieceColor::White;
        game.turn_state = TurnState::Normal;
        proof {
            lemma_initial_invariants(game.board@);
        }
        game.compute_moves();
        game
    }
}

/// A new game: the standard initial position, White to move.
pub fn new_game() -> (game: Chess)
    ensures
        game.wf(),
        forall|x: int, y: int|
            sq_in_bounds(x, y) ==> #[trigger] piece_on(game.board@, x, y)
                == crate::board::initial_at(x, y),
        game.turn_color == PieceColor::White,
        game.turn_state == (if spec_any_legal(game.board@, PieceColor::White) {
            TurnState::Normal
        } else {
            TurnState::Stalemate
        }),
{
    Chess::new().init()
}

/// The standard initial position satisfies every standing invariant, and
/// neither side starts in check.
pub proof fn lemma_initial_invariants(s: Seq<Option<Piece>>)
    requires
        wf_board(s),
        forall|x: int, y: int|
            sq_in_bounds(x, y) ==> #[trigger] piece_on(s, x, y) == crate::board::initial_at(x, y),
    ensures
        board_ok(s),
        ep_clear(s, PieceColor::White),
        ep_clear(s, PieceColor::Black),
        none_promotable(s),
        !spec_in_check(s, PieceColor::White),
        !spec_in_check(s, PieceColor::Black),
{
    assert(kings_placed(s));
    assert(pawn_rows_ok(s));
    let white = PieceColor::White;
    let black = PieceColor::Black;

    // each side has one king, on its back rank's king square
    assert forall|x: int, y: int| sq_in_bounds(x, y) implies (king_on(s, x, y, white) == (x == 4
        && y == 7) && king_on(s, x, y, black) == (x == 4 && y == 0)) by {
        assert(piece_on(s, x, y) == crate::board::initial_at(x, y));
    }
    let kw = (4int, 7int);
    assert(sq_in_bounds(kw.0, kw.1) && king_on(s, kw.0, kw.1, white));
    assert(king_unique(s, white));
    let kb = (4int, 0int);
    assert(sq_in_bounds(kb.0, kb.1) && king_on(s, kb.0, kb.1, black));
    assert(king_unique(s, black));
    assert(king_sq(s, white) == kw) by {
        let kq = king_sq(s, white);
        assert(sq_in_bounds(kq.0, kq.1) && king_on(s, kq.0, kq.1, white));
    }
    assert(king_sq(s, black) == kb) by {
        let kq = king_sq(s, black);
        assert(sq_in_bounds(kq.0, kq.1) && king_on(s, kq.0, kq.1, black));
    }

    // no piece of either side reaches the enemy king's square: pawns and
    // knights fall short, and every ray is blocked by the pawn ranks, leaves
    // the board, or stays on the back rank
    assert forall|ax: int, ay: int|
        sq_in_bounds(ax, ay) && #[trigger] color_on(s, ax, ay, black) implies !pseudo_move_ok(
        s,
        ax,
        ay,
        4,
        7,
    ) by {
        assert(piece_on(s, ax, ay) == crate::board::initial_at(ax, ay));
        lemma_initial_rays_blocked(s, ax, ay, 4, 7, white);
    }
    assert(!spec_attacked(s, black, 4, 7)) by {
        if spec_attacked(s, black, 4, 7) {
            let (ax, ay): (int, int) = choose|ax: int, ay: int|
                sq_in_bounds(ax, ay) && #[trigger] color_on(s, ax, ay, black)
                    && #[trigger] pseudo_move_ok(s, ax, ay, 4, 7);
        }
    }
    assert forall|ax: int, ay: int|
        sq_in_bounds(ax, ay) && #[trigger] color_on(s, ax, ay, white) implies !pseudo_move_ok(
        s,
        ax,
        ay,
        4,
        0,
    ) by {
        assert(piece_on(s, ax, ay) == crate::board::initial_at(ax, ay));
        lemma_initial_rays_blocked(s, ax, ay, 4, 0, black);
    }
    assert(!spec_attacked(s, white, 4, 0)) by {
        if spec_attacked(s, white, 4, 0) {
            let (ax, ay): (int, int) = choose|ax: int, ay: int|
                sq_in_bounds(ax, ay) && #[trigger] color_on(s, ax, ay, white)
                    && #[trigger] pseudo_move_ok(s, ax, ay, 4, 0);
        }
    }
}

/// On the initial board, no ray from a back-rank piece reaches the opposite
/// back rank: it is blocked by its own pawn rank, leaves the board, or stays
/// on its own rank.
proof fn lemma_initial_rays_blocked(
    s: Seq<Option<Piece>>,
    ax: int,
    ay: int,
    tx: int,
    ty: int,
    ec: PieceColor,
)
    requires
        wf_board(s),
        forall|x: int, y: int|
            sq_in_bounds(x, y) ==> #[trigger] piece_on(s, x, y) == crate::board::initial_at(x, y),
        sq_in_bounds(ax, ay),
        ay == 0 || ay == 1 || ay == 6 || ay == 7,
        ty == 0 || ty == 7,
        ty == 0 ==> ay >= 6,
        ty == 7 ==> ay <= 1,
        piece_on(s, ax, ay) is Some,
    ensures
        !pseudo_move_ok(s, ax, ay, tx, ty),
{
    let pawn_row: int = if ay <= 1 {
        1
    } else {
        6
    };
    let toward: int = if ay <= 1 {
        1
    } else {
        -1
    };
    if ay == pawn_row {
        // a pawn: its pushes and captures stay within two ranks of home
        assert(!pseudo_move_ok(s, ax, ay, tx, ty));
    } else {
        // a back-rank piece
        assert forall|dx: int| -1 <= dx <= 1 implies !(#[trigger] ray_reaches(
            s,
            ax,
            ay,
            dx,
            toward,
            tx,
            ty,
            ec,
        )) by {
            if sq_in_bounds(ax + dx, ay + toward) {
                assert(piece_on(s, ax + dx, pawn_row) == crate::board::initial_at(
                    ax + dx,
                    pawn_row,
                ));
            }
        }
        assert forall|dx: int| -1 <= dx <= 1 implies !(#[trigger] ray_reaches(
            s,
            ax,
            ay,
            dx,
            -toward,
            tx,
            ty,
            ec,
        )) by {
            if ray_reaches(s, ax, ay, dx, -toward, tx, ty, ec) {
                move_calculator::lemma_ray_monotone(s, ax, ay, dx, -toward, tx, ty, ec);
            }
        }
        assert(!ray_reaches(s, ax, ay, 1, 0, tx, ty, ec)) by {
            if ray_reaches(s, ax, ay, 1, 0, tx, ty, ec) {
                move_calculator::lemma_ray_monotone(s, ax, ay, 1, 0, tx, ty, ec);
            }
        }
        assert(!ray_reaches(s, ax, ay, -1, 0, tx, ty, ec)) by {
            if ray_reaches(s, ax, ay, -1, 0, tx, ty, ec) {
                move_calculator::lemma_ray_monotone(s, ax, ay, -1, 0, tx, ty, ec);
            }
        }
    }
}

} // verus!
