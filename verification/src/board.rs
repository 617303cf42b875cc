//! The board state: an 8 by 8 grid of optional pieces stored as one
//! fixed-length row-major vector, with the coordinate conventions, the
//! occupancy queries, the standard initial setup, and the move executor that
//! applies a validated move together with its special-move side effects
//! (en passant capture, castling rook relocation, en-passant flag lifecycle).
//!
//! Rank `y` runs from 0 at the top (Black's back rank) to 7 at the bottom
//! (White's back rank); file `x` runs from 0 on the left to 7 on the right.

use vstd::prelude::*;

use crate::piece::{enemy_of, Piece, PieceColor, PieceType};

verus! {

pub const BOARD_WIDTH: usize = 8;

pub const BOARD_HEIGHT: usize = 8;

pub const BOARD_SIZE_1D: usize = 64;

/// A board view is the sequence of its 64 squares in row-major order.
pub open spec fn wf_board(s: Seq<Option<Piece>>) -> bool {
    s.len() == 64
}

pub open spec fn sq_in_bounds(x: int, y: int) -> bool {
    0 <= x < 8 && 0 <= y < 8
}

/// The flat index of the square at file `x`, rank `y`.
pub open spec fn sq_idx(x: int, y: int) -> int {
    y * 8 + x
}

pub open spec fn piece_on(s: Seq<Option<Piece>>, x: int, y: int) -> Option<Piece> {
    s[sq_idx(x, y)]
}

pub open spec fn empty_on(s: Seq<Option<Piece>>, x: int, y: int) -> bool {
    piece_on(s, x, y) is None
}

pub open spec fn color_on(s: Seq<Option<Piece>>, x: int, y: int, c: PieceColor) -> bool {
    piece_on(s, x, y) matches Some(p) && p.color == c
}

/// The square holds a pawn of color `c` that may currently be captured en
/// passant.
pub open spec fn ep_pawn_on(s: Seq<Option<Piece>>, x: int, y: int, c: PieceColor) -> bool {
    piece_on(s, x, y) matches Some(p) && p.color == c && p.piece_type matches PieceType::Pawn {
        en_passant: true,
    }
}

pub open spec fn king_on(s: Seq<Option<Piece>>, x: int, y: int, c: PieceColor) -> bool {
    piece_on(s, x, y) matches Some(p) && p.color == c && p.piece_type is King
}

pub open spec fn has_king(s: Seq<Option<Piece>>, c: PieceColor) -> bool {
    exists|x: int, y: int| sq_in_bounds(x, y) && king_on(s, x, y, c)
}

/// Exactly one king of color `c` stands on the board.
pub open spec fn king_unique(s: Seq<Option<Piece>>, c: PieceColor) -> bool {
    &&& has_king(s, c)
    &&& forall|x1: int, y1: int, x2: int, y2: int|
        sq_in_bounds(x1, y1) && sq_in_bounds(x2, y2) && #[trigger] king_on(s, x1, y1, c)
            && #[trigger] king_on(s, x2, y2, c) ==> x1 == x2 && y1 == y2
}

/// The square of the king of color `c` (meaningful when the king is unique).
pub open spec fn king_sq(s: Seq<Option<Piece>>, c: PieceColor) -> (int, int) {
    choose|q: (int, int)| sq_in_bounds(q.0, q.1) && king_on(s, q.0, q.1, c)
}

/// The back rank where a side's king and rooks start.
pub open spec fn home_rank(c: PieceColor) -> int {
    match c {
        PieceColor::White => 7,
        PieceColor::Black => 0,
    }
}

/// The rank where a side's pawns start.
pub open spec fn pawn_rank(c: PieceColor) -> int {
    match c {
        PieceColor::White => 6,
        PieceColor::Black => 1,
    }
}

/// The opposite back rank, where a side's pawns promote.
pub open spec fn last_rank(c: PieceColor) -> int {
    match c {
        PieceColor::White => 0,
        PieceColor::Black => 7,
    }
}

/// A king that has never moved still stands on its starting square. This
/// holds of every board reachable from the initial setup, because moving a
/// piece always marks it as moved.
pub open spec fn kings_placed(s: Seq<Option<Piece>>) -> bool {
    forall|x: int, y: int|
        sq_in_bounds(x, y) && (#[trigger] piece_on(s, x, y) matches Some(p) && p.piece_type
            is King && !p.has_moved) ==> x == 4 && y == home_rank(piece_on(s, x, y)->0.color)
}

/// A pawn that has never moved still stands on its side's pawn rank.
pub open spec fn pawn_rows_ok(s: Seq<Option<Piece>>) -> bool {
    forall|x: int, y: int|
        sq_in_bounds(x, y) && (#[trigger] piece_on(s, x, y) matches Some(p) && p.piece_type
            is Pawn && !p.has_moved) ==> y == pawn_rank(piece_on(s, x, y)->0.color)
}

/// No pawn of color `c` currently carries the en-passant flag. This holds of
/// the side to move: its own flags were swept when the opponent last moved.
pub open spec fn ep_clear(s: Seq<Option<Piece>>, c: PieceColor) -> bool {
    forall|x: int, y: int| sq_in_bounds(x, y) ==> !ep_pawn_on(s, x, y, c)
}

/// The kind of piece that starts on file `x` of a back rank.
pub open spec fn back_rank_kind(x: int) -> PieceType {
    if x == 0 || x == 7 {
        PieceType::Rook
    } else if x == 1 || x == 6 {
        PieceType::Knight
    } else if x == 2 || x == 5 {
        PieceType::Bishop
    } else if x == 3 {
        PieceType::Queen
    } else {
        PieceType::King
    }
}

/// The standard initial occupant of the square at file `x`, rank `y`.
pub open spec fn initial_at(x: int, y: int) -> Option<Piece> {
    if y == 0 {
        Some(
            Piece {
                piece_type: back_rank_kind(x),
                color: PieceColor::Black,
                has_moved: false,
            },
        )
    } else if y == 1 {
        Some(
            Piece {
                piece_type: PieceType::Pawn { en_passant: false },
                color: PieceColor::Black,
                has_moved: false,
            },
        )
    } else if y == 6 {
        Some(
            Piece {
                piece_type: PieceType::Pawn { en_passant: false },
                color: PieceColor::White,
                has_moved: false,
            },
        )
    } else if y == 7 {
        Some(
            Piece {
                piece_type: back_rank_kind(x),
                color: PieceColor::White,
                has_moved: false,
            },
        )
    } else {
        None
    }
}

/// Every flat index names a square: the inverse of `sq_idx`.
pub proof fn lemma_flat_square(j: int)
    requires
        0 <= j < 64,
    ensures
        sq_in_bounds(j % 8, j / 8),
        sq_idx(j % 8, j / 8) == j,
{
    vstd::arithmetic::div_mod::lemma_fundamental_div_mod(j, 8);
    vstd::arithmetic::div_mod::lemma_mod_division_less_than_divisor(j, 8);
    vstd::arithmetic::div_mod::lemma_div_pos_is_pos(j, 8);
    vstd::arithmetic::div_mod::lemma_multiply_divide_lt(j, 8, 8);
}

/// The mover after the executor has marked it: `has_moved` is set, and a pawn
/// that advanced two squares carries the en-passant flag for one ply.
pub open spec fn moved_piece(p: Piece, fx: int, fy: int, tx: int, ty: int) -> Piece {
    let p1 = Piece { has_moved: true, ..p };
    if p.piece_type is Pawn && tx == fx && (ty == fy + 2 || ty == fy - 2) {
        Piece { piece_type: PieceType::Pawn { en_passant: true }, ..p1 }
    } else {
        p1
    }
}

/// The move is a pawn capturing en passant: a diagonal pawn move whose victim
/// stands beside the mover, on the square behind the destination.
pub open spec fn ep_capture(s: Seq<Option<Piece>>, p: Piece, fx: int, fy: int, tx: int, ty: int) -> bool {
    p.piece_type is Pawn && tx != fx && ep_pawn_on(s, tx, fy, enemy_of(p.color))
}

/// The move is shaped like castling: a king moving two files.
pub open spec fn castle_shape(p: Piece, fx: int, tx: int) -> bool {
    p.piece_type is King && (tx == fx + 2 || tx == fx - 2)
}

/// The rook relocation that accompanies castling: the rook in the castling
/// corner jumps to the square the king passed over and is marked moved.
pub open spec fn castle_rook_shift(s: Seq<Option<Piece>>, fx: int, fy: int, tx: int) -> Seq<
    Option<Piece>,
> {
    let rx: int = if tx > fx {
        7
    } else {
        0
    };
    let nrx: int = if tx > fx {
        tx - 1
    } else {
        tx + 1
    };
    match piece_on(s, rx, fy) {
        Some(r) => s.update(sq_idx(rx, fy), None).update(
            sq_idx(nrx, fy),
            Some(Piece { has_moved: true, ..r }),
        ),
        None => s,
    }
}

/// What executing the move from `(fx, fy)` to `(tx, ty)` does to the board:
/// mark the mover moved (setting the en-passant flag on a two-square pawn
/// advance), resolve the capture square (behind the destination for an en
/// passant capture), relocate the rook for castling, then clear the source
/// and capture squares and place the mover on the destination.
pub open spec fn spec_apply_move(s: Seq<Option<Piece>>, fx: int, fy: int, tx: int, ty: int) -> Seq<
    Option<Piece>,
> {
    match piece_on(s, fx, fy) {
        None => s,
        Some(p0) => {
            let p = moved_piece(p0, fx, fy, tx, ty);
            let cx: int = tx;
            let cy: int = if ep_capture(s, p0, fx, fy, tx, ty) {
                fy
            } else {
                ty
            };
            let s1 = if castle_shape(p0, fx, tx) {
                castle_rook_shift(s, fx, fy, tx)
            } else {
                s
            };
            s1.update(sq_idx(fx, fy), None).update(sq_idx(cx, cy), None).update(
                sq_idx(tx, ty),
                Some(p),
            )
        },
    }
}

/// The 8x8 grid. It exclusively owns its pieces; simulation works on value
/// copies taken with `snapshot`.
pub struct Board {
    pub cells: Vec<Option<Piece>>,
}

impl View for Board {
    type V = Seq<Option<Piece>>;

    open spec fn view(&self) -> Seq<Option<Piece>> {
        self.cells@
    }
}

impl Board {
    /// An empty board.
    pub fn new() -> (b: Board)
        ensures
            wf_board(b@),
            forall|x: int, y: int| sq_in_bounds(x, y) ==> #[trigger] piece_on(b@, x, y) is None,
    {
        let mut cells: Vec<Option<Piece>> = Vec::new();
        let mut i: usize = 0;
        #[verifier::loop_isolation(false)]
        while i < BOARD_SIZE_1D
            invariant
                i <= 64,
                cells@.len() == i,
                forall|j: int| 0 <= j < i ==> cells@[j] is None,
            decreases 64 - i,
        {
            cells.push(None);
            i = i + 1;
        }
        Board { cells }
    }

    /// Fill with the standard initial setup and return the board.
    pub fn init(self) -> (b: Board)
        ensures
            wf_board(b@),
            forall|x: int, y: int|
                sq_in_bounds(x, y) ==> #[trigger] piece_on(b@, x, y) == initial_at(x, y),
    {
        let mut cells: Vec<Option<Piece>> = Vec::new();
        let mut y: usize = 0;
        #[verifier::loop_isolation(false)]
        while y < BOARD_HEIGHT
            invariant
                y <= 8,
                cells@.len() == y * 8,
                forall|xx: int, yy: int|
                    sq_in_bounds(xx, yy) && yy < y ==> cells@[sq_idx(xx, yy)] == initial_at(xx, yy),
            decreases 8 - y,
        {
            let mut x: usize = 0;
            #[verifier::loop_isolation(false)]
            while x < BOARD_WIDTH
                invariant
                    y < 8,
                    x <= 8,
                    cells@.len() == y * 8 + x,
                    forall|xx: int, yy: int|
                        sq_in_bounds(xx, yy) && (yy < y || (yy == y && xx < x)) ==> cells@[sq_idx(
                            xx,
                            yy,
                        )] == initial_at(xx, yy),
                decreases 8 - x,
            {
                cells.push(Board::initial_piece_at(x, y));
                x = x + 1;
            }
            y = y + 1;
        }
        Board { cells }
    }

    /// The standard initial occupant of one square.
    fn initial_piece_at(x: usize, y: usize) -> (p: Option<Piece>)
        requires
            x < 8,
            y < 8,
        ensures
            p == initial_at(x as int, y as int),
    {
        if y == 0 || y == 7 {
            let color = if y == 0 {
                PieceColor::Black
            } else {
                PieceColor::White
            };
            let kind = if x == 0 || x == 7 {
                PieceType::Rook
            } else if x == 1 || x == 6 {
                PieceType::Knight
            } else if x == 2 || x == 5 {
                PieceType::Bishop
            } else if x == 3 {
                PieceType::Queen
            } else {
                PieceType::King
            };
            Some(Piece::new(kind, color))
        } else if y == 1 {
            Some(Piece::new(PieceType::Pawn { en_passant: false }, PieceColor::Black))
        } else if y == 6 {
            Some(Piece::new(PieceType::Pawn { en_passant: false }, PieceColor::White))
        } else {
            None
        }
    }

    /// The flat row-major index of a square.
    pub fn to_index1d(pos: (usize, usize)) -> (i: usize)
        requires
            pos.0 < 8,
            pos.1 < 8,
        ensures
            i == sq_idx(pos.0 as int, pos.1 as int),
            i < 64,
    {
        pos.1 * 8 + pos.0
    }

    /// The square of a flat row-major index.
    pub fn to_index2d(ind: usize) -> (pos: (usize, usize))
        requires
            ind < 64,
        ensures
            pos.0 < 8,
            pos.1 < 8,
            sq_idx(pos.0 as int, pos.1 as int) == ind,
    {
        proof {
            vstd::arithmetic::div_mod::lemma_fundamental_div_mod(ind as int, 8);
        }
        (ind % 8, ind / 8)
    }

    /// Whether a (possibly negative) coordinate pair lies on the board.
    pub fn is_position_in_bound(pos: (i32, i32)) -> (r: bool)
        ensures
            r == sq_in_bounds(pos.0 as int, pos.1 as int),
    {
        pos.0 >= 0 && pos.0 < 8 && pos.1 >= 0 && pos.1 < 8
    }

    pub fn is_empty_on(&self, pos: (usize, usize)) -> (r: bool)
        requires
            wf_board(self@),
            pos.0 < 8,
            pos.1 < 8,
        ensures
            r == empty_on(self@, pos.0 as int, pos.1 as int),
    {
        self.cells[Board::to_index1d(pos)].is_none()
    }

    pub fn is_color_on(&self, pos: (usize, usize), color: PieceColor) -> (r: bool)
        requires
            wf_board(self@),
            pos.0 < 8,
            pos.1 < 8,
        ensures
            r == color_on(self@, pos.0 as int, pos.1 as int, color),
    {
        match self.cells[Board::to_index1d(pos)] {
            Some(piece) => piece.get_color() == color,
            None => false,
        }
    }

    pub fn get_piece(&self, pos: (usize, usize)) -> (r: Option<Piece>)
        requires
            wf_board(self@),
            pos.0 < 8,
            pos.1 < 8,
        ensures
            r == piece_on(self@, pos.0 as int, pos.1 as int),
    {
        self.cells[Board::to_index1d(pos)]
    }

    /// A whole-state value copy, used for simulate-then-restore during
    /// legality filtering.
    pub fn snapshot(&self) -> (b: Board)
        ensures
            b@ == self@,
    {
        let mut cells: Vec<Option<Piece>> = Vec::new();
        let n = self.cells.len();
        let mut i: usize = 0;
        #[verifier::loop_isolation(false)]
        while i < n
            invariant
                i <= n,
                cells@.len() == i,
                forall|j: int| 0 <= j < i ==> cells@[j] == self.cells@[j],
            decreases n - i,
        {
            cells.push(self.cells[i]);
            i = i + 1;
        }
        let b = Board { cells };
        proof {
            assert(b@ =~= self@);
        }
        b
    }

    /// If the mover is a pawn: either record an en passant capture in
    /// `attacking_position`, or, on a two-square advance, raise the mover's
    /// en-passant flag for the opponent's next ply.
    fn move_en_passant(
        &self,
        from: (usize, usize),
        to: (usize, usize),
        src_piece: &mut Piece,
        attacking_position: &mut (usize, usize),
    )
        requires
            wf_board(self@),
            from.0 < 8,
            from.1 < 8,
            to.0 < 8,
            to.1 < 8,
        ensures
            *final(src_piece) == (if old(src_piece).piece_type is Pawn && to.0 == from.0 && (to.1
                as int == from.1 as int + 2 || to.1 as int == from.1 as int - 2) {
                Piece { piece_type: PieceType::Pawn { en_passant: true }, ..*old(src_piece) }
            } else {
                *old(src_piece)
            }),
            *final(attacking_position) == (if ep_capture(
                self@,
                *old(src_piece),
                from.0 as int,
                from.1 as int,
                to.0 as int,
                to.1 as int,
            ) {
                (to.0, from.1)
            } else {
                *old(attacking_position)
            }),
    {
        if !matches!(src_piece.piece_type, PieceType::Pawn { .. }) {
            return ;
        }
        if from.0 != to.0 {
            // a diagonal pawn move: check for an en passant victim beside the
            // mover, behind the destination square
            let en_passant_target = self.cells[Board::to_index1d((to.0, from.1))];
            let is_victim = match en_passant_target {
                Some(enemy) => enemy.get_color() != src_piece.get_color() && matches!(
                    enemy.piece_type,
                    PieceType::Pawn { en_passant: true },
                ),
                None => false,
            };
            if is_victim {
                *attacking_position = (to.0, from.1);
            }
        } else {
            let dy = if to.1 > from.1 {
                to.1 - from.1
            } else {
                from.1 - to.1
            };
            if dy == 2 {
                // a two-square first advance: capturable en passant next ply
                src_piece.piece_type = PieceType::Pawn { en_passant: true };
            }
        }
    }

    /// If the move is shaped like castling, relocate the matching rook from
    /// its corner to the square the king passed over and mark it moved.
    fn move_castling(&mut self, from: (usize, usize), to: (usize, usize), src_piece: &Piece)
        requires
            wf_board(old(self)@),
            from.0 < 8,
            from.1 < 8,
            to.0 < 8,
            to.1 < 8,
            castle_shape(*src_piece, from.0 as int, to.0 as int) ==> piece_on(
                old(self)@,
                if to.0 > from.0 {
                    7int
                } else {
                    0int
                },
                from.1 as int,
            ) is Some,
        ensures
            final(self)@ == (if castle_shape(*src_piece, from.0 as int, to.0 as int) {
                castle_rook_shift(old(self)@, from.0 as int, from.1 as int, to.0 as int)
            } else {
                old(self)@
            }),
    {
        let dx = if to.0 > from.0 {
            to.0 - from.0
        } else {
            from.0 - to.0
        };
        let is_castling = matches!(src_piece.piece_type, PieceType::King) && dx == 2;
        if !is_castling {
            return ;
        }
        let rook_x: usize = if to.0 > from.0 {
            BOARD_WIDTH - 1
        } else {
            0
        };
        let rook_new_x: usize = if to.0 > from.0 {
            to.0 - 1
        } else {
            to.0 + 1
        };
        let mut rook = self.cells[Board::to_index1d((rook_x, from.1))].unwrap();
        self.cells.set(Board::to_index1d((rook_x, from.1)), None);
        rook.set_has_moved(true);
        self.cells.set(Board::to_index1d((rook_new_x, from.1)), Some(rook));
    }

    /// Execute a move: mark the mover moved, resolve the special cases, clear
    /// the source and capture squares and place the mover on the destination.
    /// The destination is assumed to have been validated against the legal
    /// move table; only what is needed to stay in bounds is re-checked here.
    pub fn move_piece(&mut self, from: (usize, usize), to: (usize, usize))
        requires
            wf_board(old(self)@),
            from.0 < 8,
            from.1 < 8,
            to.0 < 8,
            to.1 < 8,
            piece_on(old(self)@, from.0 as int, from.1 as int) is Some,
            castle_shape(
                piece_on(old(self)@, from.0 as int, from.1 as int)->0,
                from.0 as int,
                to.0 as int,
            ) ==> piece_on(
                old(self)@,
                if to.0 > from.0 {
                    7int
                } else {
                    0int
                },
                from.1 as int,
            ) is Some,
        ensures
            wf_board(final(self)@),
            final(self)@ == spec_apply_move(
                old(self)@,
                from.0 as int,
                from.1 as int,
                to.0 as int,
                to.1 as int,
            ),
    {
        let src = self.cells[Board::to_index1d(from)];
        let mut src_piece = src.unwrap();
        src_piece.set_has_moved(true);
        let mut attacking_position = to;
        self.move_en_passant(from, to, &mut src_piece, &mut attacking_position);
        self.move_castling(from, to, &src_piece);
        let from_1d = Board::to_index1d(from);
        let attack_1d = Board::to_index1d(attacking_position);
        let to_1d = Board::to_index1d(to);
        self.cells.set(from_1d, None);
        self.cells.set(attack_1d, None);
        self.cells.set(to_1d, Some(src_piece));
    }
}

} // verus!
