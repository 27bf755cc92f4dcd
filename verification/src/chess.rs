//! A minimal chess-piece model: the kinds of piece, a piece with a colour,
//! and a movement trait whose one implementation is a stub that sends every
//! piece to square 1.

use vstd::prelude::*;

verus! {

/// The kinds of chess piece.
pub enum PieceType {
    King,
    Queen,
    Pawn,
    Knight,
    Bishop,
    Rook,
}

impl PieceType {
    /// The display name of this kind of piece.
    pub open spec fn spec_name(&self) -> Seq<char> {
        match self {
            PieceType::King => "King"@,
            PieceType::Queen => "Queen"@,
            PieceType::Pawn => "Pawn"@,
            PieceType::Knight => "Knight"@,
            PieceType::Bishop => "Bishop"@,
            PieceType::Rook => "Rook"@,
        }
    }

    /// The display name of this kind of piece; printing it is the caller's
    /// business.
    pub fn curr_type(&self) -> (name: String)
        ensures
            name@ == self.spec_name(),
    {
        match self {
            PieceType::King => "King".to_owned(),
            PieceType::Queen => "Queen".to_owned(),
            PieceType::Pawn => "Pawn".to_owned(),
            PieceType::Knight => "Knight".to_owned(),
            PieceType::Bishop => "Bishop".to_owned(),
            PieceType::Rook => "Rook".to_owned(),
        }
    }
}

/// A piece: its kind and its colour.
pub struct Piece {
    is_white: bool,
    piece_type: PieceType,
}

/// Movement: where a piece at `pos` may go, or `None` when it may not move.
pub trait MovePiece {
    fn move_piece(&self, pos: u32) -> Option<u32>;
}

impl MovePiece for Piece {
    /// A placeholder movement rule: every kind of piece moves to square 1.
    fn move_piece(&self, pos: u32) -> (r: Option<u32>)
        ensures
            r == Some(1u32),
    {
        match self.piece_type {
            PieceType::King => Some(1),
            PieceType::Queen => Some(1),
            PieceType::Pawn => Some(1),
            PieceType::Knight => Some(1),
            PieceType::Bishop => Some(1),
            PieceType::Rook => Some(1),
        }
    }
}

impl Piece {
    /// The kind of the piece.
    pub closed spec fn spec_piece_type(&self) -> PieceType {
        self.piece_type
    }

    /// Whether the piece is white.
    pub closed spec fn spec_is_white(&self) -> bool {
        self.is_white
    }

    /// A piece of the given kind and colour.
    pub fn new(piece_type: PieceType, is_white: bool) -> (r: Self)
        ensures
            r.spec_piece_type() == piece_type,
            r.spec_is_white() == is_white,
    {
        Self { piece_type, is_white }
    }
}

} // verus!
