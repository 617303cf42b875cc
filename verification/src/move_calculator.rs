//! The move generator: per-piece pseudo-legal move rules. A pseudo-legal
//! move obeys the piece's movement pattern and the occupancy rules but is not
//! yet checked against self-check; the legality filter in `chess` removes the
//! candidates that would leave the mover's own king attacked.
//!
//! Each generator adds its destinations into a caller-supplied 64-entry
//! table, so the same functions serve both per-piece generation (into a fresh
//! table) and the union of a whole side's attacks (into a shared table).

use vstd::prelude::*;

use crate::board::{
    color_on, empty_on, ep_pawn_on, home_rank, king_on, kings_placed, piece_on, sq_idx,
    sq_in_bounds, wf_board, Board,
};
use crate::piece::{enemy_of, Piece, PieceColor, PieceType};

verus! {

/// The direction a side's pawns advance in: White moves up the board (toward
/// rank 0), Black down (toward rank 7).
pub open spec fn pawn_dir(c: PieceColor) -> int {
    match c {
        PieceColor::White => -1,
        PieceColor::Black => 1,
    }
}

/// A destination square a piece may enter: empty, or held by the enemy (a
/// capture).
pub open spec fn target_ok(s: Seq<Option<Piece>>, tx: int, ty: int, ec: PieceColor) -> bool {
    empty_on(s, tx, ty) || color_on(s, tx, ty, ec)
}

/// The pawn rules: a one-square advance onto an empty square; a two-square
/// first advance over an empty square onto an empty square; a diagonal
/// capture onto an enemy square; or an en passant capture onto the empty
/// square diagonally ahead when the square beside the pawn holds an enemy
/// pawn that just advanced two squares.
pub open spec fn pawn_move_ok(
    s: Seq<Option<Piece>>,
    p: Piece,
    fx: int,
    fy: int,
    tx: int,
    ty: int,
) -> bool {
    let d = pawn_dir(p.color);
    let ec = enemy_of(p.color);
    ||| (tx == fx && ty == fy + d && sq_in_bounds(tx, ty) && empty_on(s, tx, ty))
    ||| (tx == fx && ty == fy + 2 * d && !p.has_moved && sq_in_bounds(fx, fy + d) && sq_in_bounds(
        tx,
        ty,
    ) && empty_on(s, fx, fy + d) && empty_on(s, tx, ty))
    ||| ((tx == fx + 1 || tx == fx - 1) && ty == fy + d && sq_in_bounds(tx, ty) && (color_on(
        s,
        tx,
        ty,
        ec,
    ) || (empty_on(s, tx, ty) && ep_pawn_on(s, tx, fy, ec))))
}

/// The eight knight jumps.
pub open spec fn knight_jump(fx: int, fy: int, tx: int, ty: int) -> bool {
    ||| (tx == fx - 2 && ty == fy - 1)
    ||| (tx == fx - 2 && ty == fy + 1)
    ||| (tx == fx + 2 && ty == fy - 1)
    ||| (tx == fx + 2 && ty == fy + 1)
    ||| (tx == fx - 1 && ty == fy - 2)
    ||| (tx == fx - 1 && ty == fy + 2)
    ||| (tx == fx + 1 && ty == fy - 2)
    ||| (tx == fx + 1 && ty == fy + 2)
}

/// The eight king steps.
pub open spec fn king_step(fx: int, fy: int, tx: int, ty: int) -> bool {
    fx - 1 <= tx <= fx + 1 && fy - 1 <= ty <= fy + 1 && !(tx == fx && ty == fy)
}

/// How many steps a ray starting at `x` can still take before leaving the
/// board in direction `dx`; a termination measure for `ray_reaches`.
pub open spec fn ray_fuel(x: int, dx: int) -> int {
    if dx >= 0 {
        8 - x
    } else {
        x + 8
    }
}

/// A ray cast from `(x, y)` in direction `(dx, dy)` reaches `(tx, ty)`: the
/// ray walks square by square, stops at the edge of the board, and stops at
/// the first occupied square, which it includes only as an enemy capture.
pub open spec fn ray_reaches(
    s: Seq<Option<Piece>>,
    x: int,
    y: int,
    dx: int,
    dy: int,
    tx: int,
    ty: int,
    ec: PieceColor,
) -> bool
    decreases ray_fuel(x, dx) + ray_fuel(y, dy),
{
    if dx == 0 && dy == 0 {
        false
    } else {
        let nx = x + dx;
        let ny = y + dy;
        if !sq_in_bounds(nx, ny) {
            false
        } else if nx == tx && ny == ty {
            target_ok(s, nx, ny, ec)
        } else if empty_on(s, nx, ny) {
            ray_reaches(s, nx, ny, dx, dy, tx, ty, ec)
        } else {
            false
        }
    }
}

/// A ray only reaches squares strictly further along its direction, and only
/// squares on the board.
pub proof fn lemma_ray_monotone(
    s: Seq<Option<Piece>>,
    x: int,
    y: int,
    dx: int,
    dy: int,
    tx: int,
    ty: int,
    ec: PieceColor,
)
    requires
        ray_reaches(s, x, y, dx, dy, tx, ty, ec),
    ensures
        dx > 0 ==> tx > x,
        dx == 0 ==> tx == x,
        dx < 0 ==> tx < x,
        dy > 0 ==> ty > y,
        dy == 0 ==> ty == y,
        dy < 0 ==> ty < y,
        sq_in_bounds(tx, ty),
        target_ok(s, tx, ty, ec),
    decreases ray_fuel(x, dx) + ray_fuel(y, dy),
{
    let nx = x + dx;
    let ny = y + dy;
    if nx == tx && ny == ty {
    } else {
        lemma_ray_monotone(s, nx, ny, dx, dy, tx, ty, ec);
    }
}

/// Rook movement: a ray in one of the four orthogonal directions.
pub open spec fn ortho_reaches(
    s: Seq<Option<Piece>>,
    fx: int,
    fy: int,
    tx: int,
    ty: int,
    ec: PieceColor,
) -> bool {
    ||| ray_reaches(s, fx, fy, 1, 0, tx, ty, ec)
    ||| ray_reaches(s, fx, fy, -1, 0, tx, ty, ec)
    ||| ray_reaches(s, fx, fy, 0, 1, tx, ty, ec)
    ||| ray_reaches(s, fx, fy, 0, -1, tx, ty, ec)
}

/// Bishop movement: a ray in one of the four diagonal directions.
pub open spec fn diag_reaches(
    s: Seq<Option<Piece>>,
    fx: int,
    fy: int,
    tx: int,
    ty: int,
    ec: PieceColor,
) -> bool {
    ||| ray_reaches(s, fx, fy, 1, 1, tx, ty, ec)
    ||| ray_reaches(s, fx, fy, 1, -1, tx, ty, ec)
    ||| ray_reaches(s, fx, fy, -1, 1, tx, ty, ec)
    ||| ray_reaches(s, fx, fy, -1, -1, tx, ty, ec)
}

/// A rook of color `c` that has never moved stands on the square.
pub open spec fn rook_ready(s: Seq<Option<Piece>>, x: int, y: int, c: PieceColor) -> bool {
    piece_on(s, x, y) matches Some(r) && r.color == c && r.piece_type is Rook && !r.has_moved
}

/// The castling candidate toward `side` (1 kingside, -1 queenside) for a king
/// on its starting square `(4, fy)`: every square strictly between king and
/// rook is empty and the corner rook is of the same color and unmoved.
pub open spec fn castle_ok(s: Seq<Option<Piece>>, c: PieceColor, fy: int, side: int) -> bool {
    if side == 1 {
        empty_on(s, 5, fy) && empty_on(s, 6, fy) && rook_ready(s, 7, fy, c)
    } else {
        empty_on(s, 1, fy) && empty_on(s, 2, fy) && empty_on(s, 3, fy) && rook_ready(s, 0, fy, c)
    }
}

/// King movement: one step in any direction, or, for an unmoved king on its
/// starting square, the two-file castling candidate toward either rook.
pub open spec fn king_move_ok(
    s: Seq<Option<Piece>>,
    p: Piece,
    fx: int,
    fy: int,
    tx: int,
    ty: int,
) -> bool {
    let ec = enemy_of(p.color);
    ||| (king_step(fx, fy, tx, ty) && sq_in_bounds(tx, ty) && target_ok(s, tx, ty, ec))
    ||| (!p.has_moved && fx == 4 && fy == home_rank(p.color) && ty == fy && ((tx == 6 && castle_ok(
        s,
        p.color,
        fy,
        1,
    )) || (tx == 2 && castle_ok(s, p.color, fy, -1))))
}

/// The piece on `(fx, fy)` can move to `(tx, ty)` by its movement pattern
/// alone, self-check not yet considered.
pub open spec fn pseudo_move_ok(
    s: Seq<Option<Piece>>,
    fx: int,
    fy: int,
    tx: int,
    ty: int,
) -> bool {
    sq_in_bounds(fx, fy) && sq_in_bounds(tx, ty) && match piece_on(s, fx, fy) {
        None => false,
        Some(p) => {
            let ec = enemy_of(p.color);
            match p.piece_type {
                PieceType::Pawn { .. } => pawn_move_ok(s, p, fx, fy, tx, ty),
                PieceType::Knight => knight_jump(fx, fy, tx, ty) && target_ok(s, tx, ty, ec),
                PieceType::Bishop => diag_reaches(s, fx, fy, tx, ty, ec),
                PieceType::Rook => ortho_reaches(s, fx, fy, tx, ty, ec),
                PieceType::Queen => diag_reaches(s, fx, fy, tx, ty, ec) || ortho_reaches(
                    s,
                    fx,
                    fy,
                    tx,
                    ty,
                    ec,
                ),
                PieceType::King => king_move_ok(s, p, fx, fy, tx, ty),
            }
        },
    }
}

/// The two pieces move alike: same color and moved flag, and the same kind up
/// to a pawn's own en-passant flag (which never affects where it can move).
pub open spec fn mover_like(p1: Piece, p2: Piece) -> bool {
    &&& p1.color == p2.color
    &&& p1.has_moved == p2.has_moved
    &&& (p1.piece_type is Pawn <==> p2.piece_type is Pawn)
    &&& (!(p1.piece_type is Pawn) ==> p1.piece_type == p2.piece_type)
}

/// The two boards look the same to an attacker of color `d`: same occupancy,
/// same colors on every square, the attacker's own pieces alike, the same
/// en-passant windows on the defender's pawns, and the defender's king on the
/// same squares.
pub open spec fn attack_equiv(s1: Seq<Option<Piece>>, s2: Seq<Option<Piece>>, d: PieceColor) -> bool {
    &&& wf_board(s1)
    &&& wf_board(s2)
    &&& forall|x: int, y: int|
        sq_in_bounds(x, y) ==> #[trigger] empty_on(s1, x, y) == empty_on(s2, x, y)
    &&& forall|x: int, y: int, cc: PieceColor|
        sq_in_bounds(x, y) ==> #[trigger] color_on(s1, x, y, cc) == color_on(s2, x, y, cc)
    &&& forall|x: int, y: int|
        sq_in_bounds(x, y) && #[trigger] color_on(s1, x, y, d) ==> mover_like(
            piece_on(s1, x, y)->0,
            piece_on(s2, x, y)->0,
        )
    &&& forall|x: int, y: int|
        sq_in_bounds(x, y) ==> #[trigger] ep_pawn_on(s1, x, y, enemy_of(d)) == ep_pawn_on(
            s2,
            x,
            y,
            enemy_of(d),
        )
    &&& forall|x: int, y: int|
        sq_in_bounds(x, y) ==> #[trigger] king_on(s1, x, y, enemy_of(d)) == king_on(
            s2,
            x,
            y,
            enemy_of(d),
        )
}

/// A ray sees only occupancy and the enemy color, so it reaches the same
/// squares on two boards that look alike to the attacker.
pub proof fn lemma_ray_congruence(
    s1: Seq<Option<Piece>>,
    s2: Seq<Option<Piece>>,
    d: PieceColor,
    x: int,
    y: int,
    dx: int,
    dy: int,
    tx: int,
    ty: int,
)
    requires
        attack_equiv(s1, s2, d),
    ensures
        ray_reaches(s1, x, y, dx, dy, tx, ty, enemy_of(d)) == ray_reaches(
            s2,
            x,
            y,
            dx,
            dy,
            tx,
            ty,
            enemy_of(d),
        ),
    decreases ray_fuel(x, dx) + ray_fuel(y, dy),
{
    if !(dx == 0 && dy == 0) {
        let nx = x + dx;
        let ny = y + dy;
        if sq_in_bounds(nx, ny) {
            if !(nx == tx && ny == ty) && empty_on(s1, nx, ny) {
                lemma_ray_congruence(s1, s2, d, nx, ny, dx, dy, tx, ty);
            }
        }
    }
}

/// An attacker of color `d` has the same pseudo-legal moves on two boards
/// that look alike to it.
pub proof fn lemma_pseudo_congruence(
    s1: Seq<Option<Piece>>,
    s2: Seq<Option<Piece>>,
    d: PieceColor,
    ax: int,
    ay: int,
    tx: int,
    ty: int,
)
    requires
        attack_equiv(s1, s2, d),
        sq_in_bounds(ax, ay),
        color_on(s1, ax, ay, d),
    ensures
        pseudo_move_ok(s1, ax, ay, tx, ty) == pseudo_move_ok(s2, ax, ay, tx, ty),
{
    let p1 = piece_on(s1, ax, ay)->0;
    let p2 = piece_on(s2, ax, ay)->0;
    let ec = enemy_of(d);
    assert(mover_like(p1, p2));
    assert(color_on(s2, ax, ay, d));
    if p1.piece_type is Bishop || p1.piece_type is Rook || p1.piece_type is Queen {
        lemma_ray_congruence(s1, s2, d, ax, ay, 1, 0, tx, ty);
        lemma_ray_congruence(s1, s2, d, ax, ay, -1, 0, tx, ty);
        lemma_ray_congruence(s1, s2, d, ax, ay, 0, 1, tx, ty);
        lemma_ray_congruence(s1, s2, d, ax, ay, 0, -1, tx, ty);
        lemma_ray_congruence(s1, s2, d, ax, ay, 1, 1, tx, ty);
        lemma_ray_congruence(s1, s2, d, ax, ay, 1, -1, tx, ty);
        lemma_ray_congruence(s1, s2, d, ax, ay, -1, 1, tx, ty);
        lemma_ray_congruence(s1, s2, d, ax, ay, -1, -1, tx, ty);
    }
    if p1.piece_type is King {
        assert(rook_ready(s1, 7, ay, d) == rook_ready(s2, 7, ay, d)) by {
            if rook_ready(s1, 7, ay, d) {
                assert(color_on(s1, 7, ay, d));
            }
            if rook_ready(s2, 7, ay, d) {
                assert(color_on(s2, 7, ay, d));
                assert(color_on(s1, 7, ay, d));
            }
        }
        assert(rook_ready(s1, 0, ay, d) == rook_ready(s2, 0, ay, d)) by {
            if rook_ready(s1, 0, ay, d) {
                assert(color_on(s1, 0, ay, d));
            }
            if rook_ready(s2, 0, ay, d) {
                assert(color_on(s2, 0, ay, d));
                assert(color_on(s1, 0, ay, d));
            }
        }
    }
}

/// An attacker of color `d` attacks the same squares on two boards that look
/// alike to it.
pub proof fn lemma_attacked_congruence(
    s1: Seq<Option<Piece>>,
    s2: Seq<Option<Piece>>,
    d: PieceColor,
    tx: int,
    ty: int,
)
    requires
        attack_equiv(s1, s2, d),
    ensures
        spec_attacked(s1, d, tx, ty) == spec_attacked(s2, d, tx, ty),
{
    if spec_attacked(s1, d, tx, ty) {
        let (ax, ay): (int, int) = choose|ax: int, ay: int|
            sq_in_bounds(ax, ay) && #[trigger] color_on(s1, ax, ay, d) && #[trigger] pseudo_move_ok(
                s1,
                ax,
                ay,
                tx,
                ty,
            );
        lemma_pseudo_congruence(s1, s2, d, ax, ay, tx, ty);
        assert(color_on(s2, ax, ay, d) && pseudo_move_ok(s2, ax, ay, tx, ty));
    }
    if spec_attacked(s2, d, tx, ty) {
        let (ax, ay): (int, int) = choose|ax: int, ay: int|
            sq_in_bounds(ax, ay) && #[trigger] color_on(s2, ax, ay, d) && #[trigger] pseudo_move_ok(
                s2,
                ax,
                ay,
                tx,
                ty,
            );
        lemma_pseudo_congruence(s1, s2, d, ax, ay, tx, ty);
        assert(color_on(s1, ax, ay, d) && pseudo_move_ok(s1, ax, ay, tx, ty));
    }
}

/// A pseudo-legal move never stays in place, and its destination is empty or
/// enemy-held.
pub proof fn lemma_pseudo_target(s: Seq<Option<Piece>>, fx: int, fy: int, tx: int, ty: int)
    requires
        pseudo_move_ok(s, fx, fy, tx, ty),
    ensures
        !(tx == fx && ty == fy),
        target_ok(s, tx, ty, enemy_of(piece_on(s, fx, fy)->0.color)),
{
    let p = piece_on(s, fx, fy)->0;
    let ec = enemy_of(p.color);
    match p.piece_type {
        PieceType::Bishop | PieceType::Rook | PieceType::Queen => {
            if ray_reaches(s, fx, fy, 1, 0, tx, ty, ec) {
                lemma_ray_monotone(s, fx, fy, 1, 0, tx, ty, ec);
            }
            if ray_reaches(s, fx, fy, -1, 0, tx, ty, ec) {
                lemma_ray_monotone(s, fx, fy, -1, 0, tx, ty, ec);
            }
            if ray_reaches(s, fx, fy, 0, 1, tx, ty, ec) {
                lemma_ray_monotone(s, fx, fy, 0, 1, tx, ty, ec);
            }
            if ray_reaches(s, fx, fy, 0, -1, tx, ty, ec) {
                lemma_ray_monotone(s, fx, fy, 0, -1, tx, ty, ec);
            }
            if ray_reaches(s, fx, fy, 1, 1, tx, ty, ec) {
                lemma_ray_monotone(s, fx, fy, 1, 1, tx, ty, ec);
            }
            if ray_reaches(s, fx, fy, 1, -1, tx, ty, ec) {
                lemma_ray_monotone(s, fx, fy, 1, -1, tx, ty, ec);
            }
            if ray_reaches(s, fx, fy, -1, 1, tx, ty, ec) {
                lemma_ray_monotone(s, fx, fy, -1, 1, tx, ty, ec);
            }
            if ray_reaches(s, fx, fy, -1, -1, tx, ty, ec) {
                lemma_ray_monotone(s, fx, fy, -1, -1, tx, ty, ec);
            }
        },
        _ => {},
    }
}

/// Some piece of color `c` has `(tx, ty)` among its pseudo-legal
/// destinations. This is the attack notion used for check detection.
pub open spec fn spec_attacked(s: Seq<Option<Piece>>, c: PieceColor, tx: int, ty: int) -> bool {
    exists|fx: int, fy: int|
        sq_in_bounds(fx, fy) && #[trigger] color_on(s, fx, fy, c) && #[trigger] pseudo_move_ok(
            s,
            fx,
            fy,
            tx,
            ty,
        )
}

/// Walk a ray from `pos` in direction `dir` and add every square it reaches.
/// The ray stops at the first occupied square, adding it only as an enemy
/// capture.
fn get_moves_in_direction(
    board: &Board,
    pos: (usize, usize),
    dir: (i32, i32),
    enemy_color: PieceColor,
    moves: &mut Vec<bool>,
)
    requires
        wf_board(board@),
        pos.0 < 8,
        pos.1 < 8,
        old(moves).len() == 64,
        -1 <= dir.0 <= 1,
        -1 <= dir.1 <= 1,
        !(dir.0 == 0 && dir.1 == 0),
    ensures
        final(moves).len() == 64,
        forall|tx: int, ty: int|
            sq_in_bounds(tx, ty) ==> final(moves)@[sq_idx(tx, ty)] == (old(moves)@[sq_idx(tx, ty)]
                || ray_reaches(
                board@,
                pos.0 as int,
                pos.1 as int,
                dir.0 as int,
                dir.1 as int,
                tx,
                ty,
                enemy_color,
            )),
{
    let ghost s = board@;
    let ghost fx = pos.0 as int;
    let ghost fy = pos.1 as int;
    let ghost dx = dir.0 as int;
    let ghost dy = dir.1 as int;
    let mut nx = pos.0 as i32;
    let mut ny = pos.1 as i32;
    loop
        invariant_except_break
            s == board@,
            wf_board(s),
            fx == pos.0 as int,
            fy == pos.1 as int,
            dx == dir.0 as int,
            dy == dir.1 as int,
            -1 <= dx <= 1,
            -1 <= dy <= 1,
            !(dx == 0 && dy == 0),
            moves.len() == 64,
            0 <= nx < 8,
            0 <= ny < 8,
            (nx == pos.0 as i32 && ny == pos.1 as i32) || empty_on(s, nx as int, ny as int),
            forall|tx: int, ty: int|
                sq_in_bounds(tx, ty) ==> moves@[sq_idx(tx, ty)] == (old(moves)@[sq_idx(tx, ty)] || (
                ray_reaches(s, fx, fy, dx, dy, tx, ty, enemy_color) && !ray_reaches(
                    s,
                    nx as int,
                    ny as int,
                    dx,
                    dy,
                    tx,
                    ty,
                    enemy_color,
                ))),
            forall|tx: int, ty: int|
                sq_in_bounds(tx, ty) && #[trigger] ray_reaches(
                    s,
                    nx as int,
                    ny as int,
                    dx,
                    dy,
                    tx,
                    ty,
                    enemy_color,
                ) ==> ray_reaches(s, fx, fy, dx, dy, tx, ty, enemy_color),
        ensures
            moves.len() == 64,
            forall|tx: int, ty: int|
                sq_in_bounds(tx, ty) ==> moves@[sq_idx(tx, ty)] == (old(moves)@[sq_idx(tx, ty)]
                    || ray_reaches(s, fx, fy, dx, dy, tx, ty, enemy_color)),
        decreases ray_fuel(nx as int, dx) + ray_fuel(ny as int, dy),
    {
        let ghost px = nx as int;
        let ghost py = ny as int;
        nx = nx + dir.0;
        ny = ny + dir.1;
        if !Board::is_position_in_bound((nx, ny)) {
            proof {
                assert forall|tx: int, ty: int| sq_in_bounds(tx, ty) implies !ray_reaches(
                    s,
                    px,
                    py,
                    dx,
                    dy,
                    tx,
                    ty,
                    enemy_color,
                ) by {
                    assert(!sq_in_bounds(px + dx, py + dy));
                }
            }
            break ;
        }
        let ind = (nx as usize, ny as usize);
        let is_empty = board.is_empty_on(ind);
        let is_enemy = board.is_color_on(ind, enemy_color);
        proof {
            // the ray from the previous head reaches exactly the new head (if
            // enterable) plus, when the new head is empty, whatever the ray
            // from the new head reaches
            assert(ray_reaches(s, px, py, dx, dy, nx as int, ny as int, enemy_color) == target_ok(
                s,
                nx as int,
                ny as int,
                enemy_color,
            ));
            if ray_reaches(s, nx as int, ny as int, dx, dy, nx as int, ny as int, enemy_color) {
                lemma_ray_monotone(
                    s,
                    nx as int,
                    ny as int,
                    dx,
                    dy,
                    nx as int,
                    ny as int,
                    enemy_color,
                );
            }
        }
        if is_empty || is_enemy {
            moves.set(Board::to_index1d(ind), true);
        }
        if !is_empty {
            proof {
                assert forall|tx: int, ty: int|
                    sq_in_bounds(tx, ty) && !(tx == nx as int && ty == ny as int) implies
                    !ray_reaches(s, px, py, dx, dy, tx, ty, enemy_color) by {}
            }
            break ;
        }
        proof {
            assert forall|tx: int, ty: int|
                sq_in_bounds(tx, ty) && #[trigger] ray_reaches(
                    s,
                    nx as int,
                    ny as int,
                    dx,
                    dy,
                    tx,
                    ty,
                    enemy_color,
                ) implies ray_reaches(s, fx, fy, dx, dy, tx, ty, enemy_color) by {
                lemma_ray_monotone(s, nx as int, ny as int, dx, dy, tx, ty, enemy_color);
                assert(ray_reaches(s, px, py, dx, dy, tx, ty, enemy_color));
            }
            assert forall|tx: int, ty: int|
                sq_in_bounds(tx, ty) && !(tx == nx as int && ty == ny as int) implies #[trigger]
            ray_reaches(s, px, py, dx, dy, tx, ty, enemy_color) == ray_reaches(
                s,
                nx as int,
                ny as int,
                dx,
                dy,
                tx,
                ty,
                enemy_color,
            ) by {}
        }
    }
}

/// Add the square one fixed step away from `pos` if it is on the board and
/// enterable; the single-step rule shared by knight jumps and king steps.
fn try_step(
    board: &Board,
    pos: (usize, usize),
    step: (i32, i32),
    enemy_color: PieceColor,
    moves: &mut Vec<bool>,
)
    requires
        wf_board(board@),
        pos.0 < 8,
        pos.1 < 8,
        old(moves).len() == 64,
        -2 <= step.0 <= 2,
        -2 <= step.1 <= 2,
    ensures
        final(moves).len() == 64,
        forall|tx: int, ty: int|
            sq_in_bounds(tx, ty) ==> final(moves)@[sq_idx(tx, ty)] == (old(moves)@[sq_idx(tx, ty)]
                || (tx == pos.0 as int + step.0 as int && ty == pos.1 as int + step.1 as int
                && target_ok(board@, tx, ty, enemy_color))),
{
    let nx = pos.0 as i32 + step.0;
    let ny = pos.1 as i32 + step.1;
    if Board::is_position_in_bound((nx, ny)) {
        let ind = (nx as usize, ny as usize);
        if board.is_empty_on(ind) || board.is_color_on(ind, enemy_color) {
            moves.set(Board::to_index1d(ind), true);
        }
    }
}

/// Add the pawn's diagonal destination toward `side`: a direct capture onto
/// an enemy square, or an en passant capture onto the empty square whose
/// neighbour beside the pawn is an enemy pawn that just advanced two squares.
fn pawn_attack_side(
    piece: &Piece,
    board: &Board,
    pos: (usize, usize),
    side: i32,
    moves: &mut Vec<bool>,
)
    requires
        wf_board(board@),
        pos.0 < 8,
        pos.1 < 8,
        old(moves).len() == 64,
        side == 1 || side == -1,
    ensures
        final(moves).len() == 64,
        forall|tx: int, ty: int|
            sq_in_bounds(tx, ty) ==> final(moves)@[sq_idx(tx, ty)] == (old(moves)@[sq_idx(tx, ty)]
                || (tx == pos.0 as int + side as int && ty == pos.1 as int + pawn_dir(piece.color)
                && (color_on(board@, tx, ty, enemy_of(piece.color)) || (empty_on(board@, tx, ty)
                && ep_pawn_on(board@, tx, pos.1 as int, enemy_of(piece.color)))))),
{
    let y_direction: i32 = if piece.get_color() == PieceColor::White {
        -1
    } else {
        1
    };
    let enemy_color = piece.get_color().get_enemy_color();
    let nx = pos.0 as i32 + side;
    let ny = pos.1 as i32 + y_direction;
    if !Board::is_position_in_bound((nx, ny)) {
        return ;
    }
    let ind = (nx as usize, ny as usize);
    let is_directly_attackable = board.is_color_on(ind, enemy_color);
    let beside = board.get_piece((nx as usize, pos.1));
    let can_en_passant = board.is_empty_on(ind) && match beside {
        Some(other) => other.get_color() == enemy_color && matches!(
            other.piece_type,
            PieceType::Pawn { en_passant: true },
        ),
        None => false,
    };
    if is_directly_attackable || can_en_passant {
        moves.set(Board::to_index1d(ind), true);
    }
}

/// The pawn rules: forward only, one square onto an empty square (two on its
/// first move, stopping at the first occupied square), diagonal captures, and
/// en passant.
fn get_pawn_moves(piece: &Piece, board: &Board, pos: (usize, usize), moves: &mut Vec<bool>)
    requires
        wf_board(board@),
        pos.0 < 8,
        pos.1 < 8,
        old(moves).len() == 64,
    ensures
        final(moves).len() == 64,
        forall|tx: int, ty: int|
            sq_in_bounds(tx, ty) ==> final(moves)@[sq_idx(tx, ty)] == (old(moves)@[sq_idx(tx, ty)]
                || pawn_move_ok(board@, *piece, pos.0 as int, pos.1 as int, tx, ty)),
{
    let y_direction: i32 = if piece.get_color() == PieceColor::White {
        -1
    } else {
        1
    };

    // advance: one square, or two on the first move, stopping at the first
    // occupied square
    let fx = pos.0 as i32;
    let ny1 = pos.1 as i32 + y_direction;
    let mut first_step_empty = false;
    if Board::is_position_in_bound((fx, ny1)) {
        let ind = (pos.0, ny1 as usize);
        if board.is_empty_on(ind) {
            moves.set(Board::to_index1d(ind), true);
            first_step_empty = true;
        }
    }
    if first_step_empty && !piece.has_moved() {
        let ny2 = pos.1 as i32 + 2 * y_direction;
        if Board::is_position_in_bound((fx, ny2)) {
            let ind = (pos.0, ny2 as usize);
            if board.is_empty_on(ind) {
                moves.set(Board::to_index1d(ind), true);
            }
        }
    }

    // attack diagonally, directly or en passant
    pawn_attack_side(piece, board, pos, -1, moves);
    pawn_attack_side(piece, board, pos, 1, moves);
}

/// The eight fixed knight jumps; a destination must be empty or enemy-held.
fn get_knight_moves(piece: &Piece, board: &Board, pos: (usize, usize), moves: &mut Vec<bool>)
    requires
        wf_board(board@),
        pos.0 < 8,
        pos.1 < 8,
        old(moves).len() == 64,
    ensures
        final(moves).len() == 64,
        forall|tx: int, ty: int|
            sq_in_bounds(tx, ty) ==> final(moves)@[sq_idx(tx, ty)] == (old(moves)@[sq_idx(tx, ty)]
                || (knight_jump(pos.0 as int, pos.1 as int, tx, ty) && target_ok(
                board@,
                tx,
                ty,
                enemy_of(piece.color),
            ))),
{
    let enemy_color = piece.get_color().get_enemy_color();
    try_step(board, pos, (-2, -1), enemy_color, moves);
    try_step(board, pos, (-2, 1), enemy_color, moves);
    try_step(board, pos, (2, -1), enemy_color, moves);
    try_step(board, pos, (2, 1), enemy_color, moves);
    try_step(board, pos, (-1, -2), enemy_color, moves);
    try_step(board, pos, (-1, 2), enemy_color, moves);
    try_step(board, pos, (1, -2), enemy_color, moves);
    try_step(board, pos, (1, 2), enemy_color, moves);
}

/// Ray-cast in the four orthogonal directions.
fn get_orthogonal_moves(
    board: &Board,
    pos: (usize, usize),
    enemy_color: PieceColor,
    moves: &mut Vec<bool>,
)
    requires
        wf_board(board@),
        pos.0 < 8,
        pos.1 < 8,
        old(moves).len() == 64,
    ensures
        final(moves).len() == 64,
        forall|tx: int, ty: int|
            sq_in_bounds(tx, ty) ==> final(moves)@[sq_idx(tx, ty)] == (old(moves)@[sq_idx(tx, ty)]
                || ortho_reaches(board@, pos.0 as int, pos.1 as int, tx, ty, enemy_color)),
{
    get_moves_in_direction(board, pos, (1, 0), enemy_color, moves);
    get_moves_in_direction(board, pos, (-1, 0), enemy_color, moves);
    get_moves_in_direction(board, pos, (0, 1), enemy_color, moves);
    get_moves_in_direction(board, pos, (0, -1), enemy_color, moves);
}

/// Ray-cast in the four diagonal directions.
fn get_diagonal_moves(
    board: &Board,
    pos: (usize, usize),
    enemy_color: PieceColor,
    moves: &mut Vec<bool>,
)
    requires
        wf_board(board@),
        pos.0 < 8,
        pos.1 < 8,
        old(moves).len() == 64,
    ensures
        final(moves).len() == 64,
        forall|tx: int, ty: int|
            sq_in_bounds(tx, ty) ==> final(moves)@[sq_idx(tx, ty)] == (old(moves)@[sq_idx(tx, ty)]
                || diag_reaches(board@, pos.0 as int, pos.1 as int, tx, ty, enemy_color)),
{
    get_moves_in_direction(board, pos, (1, 1), enemy_color, moves);
    get_moves_in_direction(board, pos, (1, -1), enemy_color, moves);
    get_moves_in_direction(board, pos, (-1, 1), enemy_color, moves);
    get_moves_in_direction(board, pos, (-1, -1), enemy_color, moves);
}

fn get_bishop_moves(piece: &Piece, board: &Board, pos: (usize, usize), moves: &mut Vec<bool>)
    requires
        wf_board(board@),
        pos.0 < 8,
        pos.1 < 8,
        old(moves).len() == 64,
    ensures
        final(moves).len() == 64,
        forall|tx: int, ty: int|
            sq_in_bounds(tx, ty) ==> final(moves)@[sq_idx(tx, ty)] == (old(moves)@[sq_idx(tx, ty)]
                || diag_reaches(board@, pos.0 as int, pos.1 as int, tx, ty, enemy_of(piece.color))),
{
    let enemy_color = piece.get_color().get_enemy_color();
    get_diagonal_moves(board, pos, enemy_color, moves);
}

fn get_rook_moves(piece: &Piece, board: &Board, pos: (usize, usize), moves: &mut Vec<bool>)
    requires
        wf_board(board@),
        pos.0 < 8,
        pos.1 < 8,
        old(moves).len() == 64,
    ensures
        final(moves).len() == 64,
        forall|tx: int, ty: int|
            sq_in_bounds(tx, ty) ==> final(moves)@[sq_idx(tx, ty)] == (old(moves)@[sq_idx(tx, ty)]
                || ortho_reaches(
                board@,
                pos.0 as int,
                pos.1 as int,
                tx,
                ty,
                enemy_of(piece.color),
            )),
{
    let enemy_color = piece.get_color().get_enemy_color();
    get_orthogonal_moves(board, pos, enemy_color, moves);
}

fn get_queen_moves(piece: &Piece, board: &Board, pos: (usize, usize), moves: &mut Vec<bool>)
    requires
        wf_board(board@),
        pos.0 < 8,
        pos.1 < 8,
        old(moves).len() == 64,
    ensures
        final(moves).len() == 64,
        forall|tx: int, ty: int|
            sq_in_bounds(tx, ty) ==> final(moves)@[sq_idx(tx, ty)] == (old(moves)@[sq_idx(tx, ty)]
                || diag_reaches(board@, pos.0 as int, pos.1 as int, tx, ty, enemy_of(piece.color))
                || ortho_reaches(
                board@,
                pos.0 as int,
                pos.1 as int,
                tx,
                ty,
                enemy_of(piece.color),
            )),
{
    let enemy_color = piece.get_color().get_enemy_color();
    get_diagonal_moves(board, pos, enemy_color, moves);
    get_orthogonal_moves(board, pos, enemy_color, moves);
}

/// Whether an unmoved king at `(4, pos.1)` has a clear castling path toward
/// `x_dir` and an unmoved rook of its own color in that corner.
fn can_castle(board: &Board, pos: (usize, usize), x_dir: i32, color: PieceColor) -> (r: bool)
    requires
        wf_board(board@),
        pos.0 == 4,
        pos.1 < 8,
        x_dir == 1 || x_dir == -1,
    ensures
        r == castle_ok(board@, color, pos.1 as int, x_dir as int),
{
    let y = pos.1;
    let corner: usize = if x_dir == 1 {
        7
    } else {
        0
    };
    let path_clear = if x_dir == 1 {
        board.is_empty_on((5, y)) && board.is_empty_on((6, y))
    } else {
        board.is_empty_on((1, y)) && board.is_empty_on((2, y)) && board.is_empty_on((3, y))
    };
    if !path_clear {
        return false;
    }
    match board.get_piece((corner, y)) {
        Some(rook) => rook.get_color() == color && matches!(rook.piece_type, PieceType::Rook)
            && !rook.has_moved(),
        None => false,
    }
}

/// The eight adjacent squares, plus, for an unmoved king (necessarily still
/// on its starting square), the castling candidates two files toward either
/// rook.
fn get_king_moves(piece: &Piece, board: &Board, pos: (usize, usize), moves: &mut Vec<bool>)
    requires
        wf_board(board@),
        pos.0 < 8,
        pos.1 < 8,
        old(moves).len() == 64,
        !piece.has_moved ==> pos.0 == 4 && pos.1 as int == home_rank(piece.color),
    ensures
        final(moves).len() == 64,
        forall|tx: int, ty: int|
            sq_in_bounds(tx, ty) ==> final(moves)@[sq_idx(tx, ty)] == (old(moves)@[sq_idx(tx, ty)]
                || king_move_ok(board@, *piece, pos.0 as int, pos.1 as int, tx, ty)),
{
    let enemy_color = piece.get_color().get_enemy_color();
    try_step(board, pos, (-1, -1), enemy_color, moves);
    try_step(board, pos, (-1, 0), enemy_color, moves);
    try_step(board, pos, (-1, 1), enemy_color, moves);
    try_step(board, pos, (0, -1), enemy_color, moves);
    try_step(board, pos, (0, 1), enemy_color, moves);
    try_step(board, pos, (1, -1), enemy_color, moves);
    try_step(board, pos, (1, 0), enemy_color, moves);
    try_step(board, pos, (1, 1), enemy_color, moves);

    // special case: castling
    if !piece.has_moved() {
        let y = pos.1;
        if can_castle(board, pos, 1, piece.get_color()) {
            moves.set(Board::to_index1d((pos.0 + 2, y)), true);
        }
        if can_castle(board, pos, -1, piece.get_color()) {
            moves.set(Board::to_index1d((pos.0 - 2, y)), true);
        }
    }
}

/// Add every pseudo-legal destination of the piece on `ind` (none if the
/// square is empty), dispatching on the piece's kind.
pub fn get_moves(board: &Board, ind: (usize, usize), moves: &mut Vec<bool>)
    requires
        wf_board(board@),
        kings_placed(board@),
        ind.0 < 8,
        ind.1 < 8,
        old(moves).len() == 64,
    ensures
        final(moves).len() == 64,
        forall|tx: int, ty: int|
            sq_in_bounds(tx, ty) ==> final(moves)@[sq_idx(tx, ty)] == (old(moves)@[sq_idx(tx, ty)]
                || pseudo_move_ok(board@, ind.0 as int, ind.1 as int, tx, ty)),
{
    let piece = match board.get_piece(ind) {
        Some(piece) => piece,
        None => {
            return ;
        },
    };
    match piece.get_piece_type() {
        PieceType::Pawn { .. } => get_pawn_moves(&piece, board, ind, moves),
        PieceType::Knight => get_knight_moves(&piece, board, ind, moves),
        PieceType::Bishop => get_bishop_moves(&piece, board, ind, moves),
        PieceType::Rook => get_rook_moves(&piece, board, ind, moves),
        PieceType::Queen => get_queen_moves(&piece, board, ind, moves),
        PieceType::King => get_king_moves(&piece, board, ind, moves),
    }
}

/// Some piece of color `c` attacked before square `(ux, uy)` in file-major
/// order; the partial union built by `get_all_attacks`.
spec fn attacked_before(
    s: Seq<Option<Piece>>,
    c: PieceColor,
    tx: int,
    ty: int,
    ux: int,
    uy: int,
) -> bool {
    exists|fx: int, fy: int|
        sq_in_bounds(fx, fy) && (fx < ux || (fx == ux && fy < uy)) && #[trigger] color_on(
            s,
            fx,
            fy,
            c,
        ) && #[trigger] pseudo_move_ok(s, fx, fy, tx, ty)
}

/// The union, over every piece of the given color, of its pseudo-legal
/// destinations; used to test whether the opposing king's square is attacked.
pub fn get_all_attacks(board: &Board, color: PieceColor) -> (attacks: Vec<bool>)
    requires
        wf_board(board@),
        kings_placed(board@),
    ensures
        attacks.len() == 64,
        forall|tx: int, ty: int|
            sq_in_bounds(tx, ty) ==> attacks@[sq_idx(tx, ty)] == spec_attacked(
                board@,
                color,
                tx,
                ty,
            ),
{
    let ghost s = board@;
    let mut attacks = fresh_moves();
    let mut x: usize = 0;
    #[verifier::loop_isolation(false)]
    while x < 8
        invariant
            x <= 8,
            attacks.len() == 64,
            forall|tx: int, ty: int|
                sq_in_bounds(tx, ty) ==> attacks@[sq_idx(tx, ty)] == attacked_before(
                    s,
                    color,
                    tx,
                    ty,
                    x as int,
                    0,
                ),
        decreases 8 - x,
    {
        let mut y: usize = 0;
        #[verifier::loop_isolation(false)]
        while y < 8
            invariant
                x < 8,
                y <= 8,
                attacks.len() == 64,
                forall|tx: int, ty: int|
                    sq_in_bounds(tx, ty) ==> attacks@[sq_idx(tx, ty)] == attacked_before(
                        s,
                        color,
                        tx,
                        ty,
                        x as int,
                        y as int,
                    ),
            decreases 8 - y,
        {
            let ghost before = attacks@;
            if board.is_color_on((x, y), color) {
                get_moves(board, (x, y), &mut attacks);
            }
            proof {
                assert forall|tx: int, ty: int| sq_in_bounds(tx, ty) implies attacks@[sq_idx(
                    tx,
                    ty,
                )] == attacked_before(s, color, tx, ty, x as int, y as int + 1) by {
                    if attacked_before(s, color, tx, ty, x as int, y as int + 1) {
                        let (fx, fy): (int, int) = choose|fx: int, fy: int|
                            sq_in_bounds(fx, fy) && (fx < x as int || (fx == x as int && fy < y
                                as int + 1)) && #[trigger] color_on(s, fx, fy, color)
                                && #[trigger] pseudo_move_ok(s, fx, fy, tx, ty);
                        if fx == x as int && fy == y as int {
                            assert(attacks@[sq_idx(tx, ty)]);
                        } else {
                            assert(attacked_before(s, color, tx, ty, x as int, y as int));
                        }
                    }
                    if attacks@[sq_idx(tx, ty)] && !before[sq_idx(tx, ty)] {
                        assert(color_on(s, x as int, y as int, color) && pseudo_move_ok(
                            s,
                            x as int,
                            y as int,
                            tx,
                            ty,
                        ));
                    }
                }
            }
            y = y + 1;
        }
        proof {
            assert forall|tx: int, ty: int| sq_in_bounds(tx, ty) implies attacked_before(
                s,
                color,
                tx,
                ty,
                x as int,
                8,
            ) == attacked_before(s, color, tx, ty, x as int + 1, 0) by {
                if attacked_before(s, color, tx, ty, x as int, 8) {
                    let (fx, fy): (int, int) = choose|fx: int, fy: int|
                        sq_in_bounds(fx, fy) && (fx < x as int || (fx == x as int && fy < 8))
                            && #[trigger] color_on(s, fx, fy, color) && #[trigger] pseudo_move_ok(
                            s,
                            fx,
                            fy,
                            tx,
                            ty,
                        );
                    assert(attacked_before(s, color, tx, ty, x as int + 1, 0));
                }
                if attacked_before(s, color, tx, ty, x as int + 1, 0) {
                    let (fx, fy): (int, int) = choose|fx: int, fy: int|
                        sq_in_bounds(fx, fy) && (fx < x as int + 1 || (fx == x as int + 1 && fy
                            < 0)) && #[trigger] color_on(s, fx, fy, color)
                            && #[trigger] pseudo_move_ok(s, fx, fy, tx, ty);
                    assert(attacked_before(s, color, tx, ty, x as int, 8));
                }
            }
        }
        x = x + 1;
    }
    proof {
        assert forall|tx: int, ty: int| sq_in_bounds(tx, ty) implies attacked_before(
            s,
            color,
            tx,
            ty,
            8,
            0,
        ) == spec_attacked(s, color, tx, ty) by {
            if spec_attacked(s, color, tx, ty) {
                let (fx, fy): (int, int) = choose|fx: int, fy: int|
                    sq_in_bounds(fx, fy) && #[trigger] color_on(s, fx, fy, color)
                        && #[trigger] pseudo_move_ok(s, fx, fy, tx, ty);
                assert(attacked_before(s, color, tx, ty, 8, 0));
            }
        }
    }
    attacks
}

/// A 64-entry move table with no destination set.
pub(crate) fn fresh_moves() -> (v: Vec<bool>)
    ensures
        v.len() == 64,
        forall|j: int| 0 <= j < 64 ==> !v@[j],
{
    let mut v: Vec<bool> = Vec::new();
    let mut i: usize = 0;
    #[verifier::loop_isolation(false)]
    while i < 64
        invariant
            i <= 64,
            v@.len() == i,
            forall|j: int| 0 <= j < i ==> !v@[j],
        decreases 64 - i,
    {
        v.push(false);
        i = i + 1;
    }
    v
}

} // verus!
