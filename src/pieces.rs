//! Pieces, sides and candidate moves.
use vstd::prelude::*;

verus! {

/// The three kinds of piece.
#[derive(Debug, Clone, Copy, PartialEq, Eq, Structural)]
pub enum PieceType {
    /// Jumps one to three squares along a line onto an empty square; captures
    /// the one opposing piece it jumps over.
    Developer,
    /// Moves in an L shape; captures by landing on an opposing piece.
    Designer,
    /// Moves one square in any direction; captures by landing. Losing it loses the game.
    ProductOwner,
}

/// The two sides. White moves first.
#[derive(Debug, Clone, Copy, PartialEq, Eq, Structural)]
pub enum PlayerColor {
    White,
    Black,
}

pub open spec fn opponent_of(c: PlayerColor) -> PlayerColor {
    match c {
        PlayerColor::White => PlayerColor::Black,
        PlayerColor::Black => PlayerColor::White,
    }
}

impl PlayerColor {
    /// The other side.
    pub fn opponent(&self) -> (r: PlayerColor)
        ensures
            r == opponent_of(*self),
            r != *self,
    {
        match self {
            PlayerColor::White => PlayerColor::Black,
            PlayerColor::Black => PlayerColor::White,
        }
    }
}

/// A piece: its kind and its side.
#[derive(Debug, Clone, Copy, PartialEq, Eq, Structural)]
pub struct Piece {
    pub piece_type: PieceType,
    pub color: PlayerColor,
}

pub open spec fn symbol_of(p: Piece) -> char {
    match (p.piece_type, p.color) {
        (PieceType::ProductOwner, PlayerColor::White) => '♔',
        (PieceType::Developer, PlayerColor::White) => '♖',
        (PieceType::Designer, PlayerColor::White) => '♘',
        (PieceType::ProductOwner, PlayerColor::Black) => '♚',
        (PieceType::Developer, PlayerColor::Black) => '♜',
        (PieceType::Designer, PlayerColor::Black) => '♞',
    }
}

impl Piece {
    pub fn new(piece_type: PieceType, color: PlayerColor) -> (r: Piece)
        ensures
            r.piece_type == piece_type,
            r.color == color,
    {
        Piece { piece_type, color }
    }

    /// The character that shows this piece on a board.
    pub fn symbol(&self) -> (r: char)
        ensures
            r == symbol_of(*self),
    {
        match (self.piece_type, self.color) {
            (PieceType::ProductOwner, PlayerColor::White) => '♔',
            (PieceType::Developer, PlayerColor::White) => '♖',
            (PieceType::Designer, PlayerColor::White) => '♘',
            (PieceType::ProductOwner, PlayerColor::Black) => '♚',
            (PieceType::Developer, PlayerColor::Black) => '♜',
            (PieceType::Designer, PlayerColor::Black) => '♞',
        }
    }
}

/// A candidate move: where the piece lands, whether it captures, and for a
/// jumping capture the square of the piece jumped over.
#[derive(Debug, Clone, Copy)]
pub struct MoveDetail {
    pub to_r: usize,
    pub to_c: usize,
    pub is_capture: bool,
    pub jumped_piece_coord: Option<(usize, usize)>,
}

} // verus!
