//! Piece kinds, colours, and the piece record stored on a board square.

use vstd::prelude::*;

verus! {

/// The six chess piece kinds.
#[derive(Clone, Copy, PartialEq, Eq, Structural, Debug, Hash)]
pub enum PieceKind {
    Pawn,
    Rook,
    Knight,
    Bishop,
    Queen,
    King,
}

impl PieceKind {
    /// A sliding piece moves along a direction until blocked;
    /// rooks, bishops and queens slide, the others step.
    pub fn is_sliding(&self) -> (r: bool)
        ensures
            r == self.spec_is_sliding(),
    {
        match self {
            PieceKind::Pawn | PieceKind::King | PieceKind::Knight => false,
            _ => true,
        }
    }

    pub open spec fn spec_is_sliding(self) -> bool {
        self == PieceKind::Rook || self == PieceKind::Bishop || self == PieceKind::Queen
    }
}

/// The two sides.
#[derive(Clone, Copy, PartialEq, Eq, Structural, Debug, Hash)]
pub enum ChessColour {
    White,
    Black,
}

impl ChessColour {
    /// The opposing side.
    pub fn flip(&self) -> (r: Self)
        ensures
            r == self.spec_flip(),
    {
        if *self == ChessColour::White {
            ChessColour::Black
        } else {
            ChessColour::White
        }
    }

    pub open spec fn spec_flip(self) -> ChessColour {
        if self == ChessColour::White {
            ChessColour::Black
        } else {
            ChessColour::White
        }
    }
}

/// A piece on the board. `has_moved` is monotonic (false until the piece
/// first moves); `en_passanteable` is set by a double pawn push and survives
/// exactly one ply.
#[derive(Clone, Copy, PartialEq, Eq, Structural, Debug)]
pub struct Piece {
    pub kind: PieceKind,
    pub colour: ChessColour,
    pub has_moved: bool,
    pub en_passanteable: bool,
}

impl Piece {
    /// The piece that the letter denotes in the usual English notation:
    /// upper case is White, lower case is Black; any other character is
    /// not a piece.
    pub fn from_char(c: char) -> (r: Option<Piece>)
        ensures
            r == Piece::spec_from_char(c),
    {
        match c {
            'P' => Some(Piece::fresh(PieceKind::Pawn, ChessColour::White)),
            'R' => Some(Piece::fresh(PieceKind::Rook, ChessColour::White)),
            'N' => Some(Piece::fresh(PieceKind::Knight, ChessColour::White)),
            'B' => Some(Piece::fresh(PieceKind::Bishop, ChessColour::White)),
            'Q' => Some(Piece::fresh(PieceKind::Queen, ChessColour::White)),
            'K' => Some(Piece::fresh(PieceKind::King, ChessColour::White)),
            'p' => Some(Piece::fresh(PieceKind::Pawn, ChessColour::Black)),
            'r' => Some(Piece::fresh(PieceKind::Rook, ChessColour::Black)),
            'n' => Some(Piece::fresh(PieceKind::Knight, ChessColour::Black)),
            'b' => Some(Piece::fresh(PieceKind::Bishop, ChessColour::Black)),
            'q' => Some(Piece::fresh(PieceKind::Queen, ChessColour::Black)),
            'k' => Some(Piece::fresh(PieceKind::King, ChessColour::Black)),
            _ => None,
        }
    }

    /// A piece that has not moved and is not capturable en passant.
    pub fn fresh(kind: PieceKind, colour: ChessColour) -> (r: Piece)
        ensures
            r == Piece::spec_fresh(kind, colour),
    {
        Piece { kind, colour, has_moved: false, en_passanteable: false }
    }

    pub open spec fn spec_fresh(kind: PieceKind, colour: ChessColour) -> Piece {
        Piece { kind, colour, has_moved: false, en_passanteable: false }
    }

    pub open spec fn spec_from_char(c: char) -> Option<Piece> {
        if c == 'P' {
            Some(Piece::spec_fresh(PieceKind::Pawn, ChessColour::White))
        } else if c == 'R' {
            Some(Piece::spec_fresh(PieceKind::Rook, ChessColour::White))
        } else if c == 'N' {
            Some(Piece::spec_fresh(PieceKind::Knight, ChessColour::White))
        } else if c == 'B' {
            Some(Piece::spec_fresh(PieceKind::Bishop, ChessColour::White))
        } else if c == 'Q' {
            Some(Piece::spec_fresh(PieceKind::Queen, ChessColour::White))
        } else if c == 'K' {
            Some(Piece::spec_fresh(PieceKind::King, ChessColour::White))
        } else if c == 'p' {
            Some(Piece::spec_fresh(PieceKind::Pawn, ChessColour::Black))
        } else if c == 'r' {
            Some(Piece::spec_fresh(PieceKind::Rook, ChessColour::Black))
        } else if c == 'n' {
            Some(Piece::spec_fresh(PieceKind::Knight, ChessColour::Black))
        } else if c == 'b' {
            Some(Piece::spec_fresh(PieceKind::Bishop, ChessColour::Black))
        } else if c == 'q' {
            Some(Piece::spec_fresh(PieceKind::Queen, ChessColour::Black))
        } else if c == 'k' {
            Some(Piece::spec_fresh(PieceKind::King, ChessColour::Black))
        } else {
            None
        }
    }
}

} // verus!
