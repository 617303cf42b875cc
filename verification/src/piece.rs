//! The piece model: piece identity (kind, color) together with the
//! movement-relevant flags. A piece is a pure value type; simulating a move
//! copies pieces and never mutates the board being simulated from.

use vstd::prelude::*;

verus! {

/// The two sides of a chess game.
#[derive(Copy, Clone, PartialEq, Eq, Structural, Debug)]
pub enum PieceColor {
    White,
    Black,
}

/// The side whose pieces the given side attacks.
pub open spec fn enemy_of(c: PieceColor) -> PieceColor {
    match c {
        PieceColor::White => PieceColor::Black,
        PieceColor::Black => PieceColor::White,
    }
}

impl PieceColor {
    pub fn get_enemy_color(&self) -> (r: PieceColor)
        ensures
            r == enemy_of(*self),
    {
        match *self {
            PieceColor::White => PieceColor::Black,
            PieceColor::Black => PieceColor::White,
        }
    }
}

/// The kind of a piece. A pawn carries the flag that says whether it has just
/// advanced two squares and may be captured en passant on the very next ply;
/// only pawns ever carry this flag.
#[derive(Copy, Clone, PartialEq, Eq, Structural, Debug)]
pub enum PieceType {
    Pawn { en_passant: bool },
    Rook,
    Bishop,
    Knight,
    King,
    Queen,
}

/// One piece on the board. `has_moved` gates castling rights (king, rook) and
/// the pawn's two-square first advance.
#[derive(Copy, Clone, PartialEq, Eq, Structural, Debug)]
pub struct Piece {
    pub piece_type: PieceType,
    pub color: PieceColor,
    pub has_moved: bool,
}

impl Piece {
    pub fn new(piece_type: PieceType, color: PieceColor) -> (p: Piece)
        ensures
            p == (Piece { piece_type, color, has_moved: false }),
    {
        Piece { piece_type, color, has_moved: false }
    }

    pub fn get_piece_type(&self) -> (t: PieceType)
        ensures
            t == self.piece_type,
    {
        self.piece_type
    }

    pub fn get_piece_type_mut(&mut self) -> (t: &mut PieceType)
        ensures
            *t == old(self).piece_type,
            *final(self) == (Piece { piece_type: *final(t), ..*old(self) }),
    {
        &mut self.piece_type
    }

    pub fn get_color(&self) -> (c: PieceColor)
        ensures
            c == self.color,
    {
        self.color
    }

    pub fn has_moved(&self) -> (m: bool)
        ensures
            m == self.has_moved,
    {
        self.has_moved
    }

    pub fn set_has_moved(&mut self, has_moved: bool)
        ensures
            *final(self) == (Piece { has_moved, ..*old(self) }),
    {
        self.has_moved = has_moved;
    }

    /// Replace a pawn's kind when it promotes. Only pawns promote, and a king
    /// is never a valid promotion target.
    pub fn promote(&mut self, promote_to: PieceType)
        requires
            old(self).piece_type is Pawn,
            !(promote_to is King),
        ensures
            *final(self) == (Piece { piece_type: promote_to, ..*old(self) }),
    {
        self.piece_type = promote_to;
    }

    /// The one-letter code of this piece, upper case for White.
    pub open spec fn spec_letter(self) -> char {
        match self.color {
            PieceColor::White => match self.piece_type {
                PieceType::Pawn { .. } => 'P',
                PieceType::Rook => 'R',
                PieceType::Bishop => 'B',
                PieceType::Knight => 'N',
                PieceType::King => 'K',
                PieceType::Queen => 'Q',
            },
            PieceColor::Black => match self.piece_type {
                PieceType::Pawn { .. } => 'p',
                PieceType::Rook => 'r',
                PieceType::Bishop => 'b',
                PieceType::Knight => 'n',
                PieceType::King => 'k',
                PieceType::Queen => 'q',
            },
        }
    }

    /// The one-letter code of this piece, used by callers that render the
    /// board as text.
    pub fn letter(&self) -> (c: char)
        ensures
            c == self.spec_letter(),
    {
        match self.color {
            PieceColor::White => match self.piece_type {
                PieceType::Pawn { .. } => 'P',
                PieceType::Rook => 'R',
                PieceType::Bishop => 'B',
                PieceType::Knight => 'N',
                PieceType::King => 'K',
                PieceType::Queen => 'Q',
            },
            PieceColor::Black => match self.piece_type {
                PieceType::Pawn { .. } => 'p',
                PieceType::Rook => 'r',
                PieceType::Bishop => 'b',
                PieceType::Knight => 'n',
                PieceType::King => 'k',
                PieceType::Queen => 'q',
            },
        }
    }
}

} // verus!
