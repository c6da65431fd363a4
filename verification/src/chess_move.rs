//! Moves as plain data: a destination plus a tagged effect, and the
//! immutable log record of a performed move.

use vstd::prelude::*;

use crate::piece::ChessColour;
use crate::square::coord_string;
use crate::square::coord_text;

verus! {

/// The effect a move carries beyond plain relocation.
///
/// `Dummy` and `Normal` report that relocation is still to be done (the
/// generic relocation step performs it); the other kinds own the whole board
/// mutation themselves. `Normal` additionally logs a history record, `Dummy`
/// logs nothing.
#[derive(Clone, Copy, Debug)]
pub enum MoveKind {
    /// Plain relocation with no history record.
    Dummy,
    /// Plain relocation, logged from the recorded source square.
    Normal { src: (u8, u8) },
    /// A double pawn push: marks the source pawn en-passant-eligible before
    /// the generic relocation step moves it.
    DoublePush { src: (u8, u8), colour: ChessColour },
    /// An en passant capture: moves the pawn and removes the passed pawn.
    EnPassant { src: (u8, u8) },
    /// A pawn promotion: the destination receives the currently selected
    /// promotion kind.
    Promotion { src: (u8, u8) },
    /// Castling: relocates both the rook and the king of `colour`.
    Castle { long: bool, colour: ChessColour },
}

/// A candidate move: where it goes, and what applying it does.
/// Two moves are compared by destination only.
#[derive(Clone, Copy, Debug)]
pub struct ChessMove {
    pub dst: (u8, u8),
    pub kind: MoveKind,
}

impl PartialEq for ChessMove {
    fn eq(&self, other: &Self) -> (r: bool) {
        self.dst.0 == other.dst.0 && self.dst.1 == other.dst.1
    }
}

impl vstd::std_specs::cmp::PartialEqSpecImpl for ChessMove {
    open spec fn obeys_eq_spec() -> bool {
        true
    }

    open spec fn eq_spec(&self, other: &Self) -> bool {
        self.dst == other.dst
    }
}

impl ChessMove {
    /// A move to `dst` that carries no effect and logs nothing; used for
    /// scratch relocations when testing a candidate for check.
    pub fn dummy(dst: (u8, u8)) -> (r: Self)
        ensures
            r == (ChessMove { dst, kind: MoveKind::Dummy }),
    {
        ChessMove { dst, kind: MoveKind::Dummy }
    }
}

/// The record of one performed move: source and destination.
#[derive(Clone, Copy, PartialEq, Eq, Debug)]
pub struct PerformedMove {
    pub src: (u8, u8),
    pub dst: (u8, u8),
}

impl PerformedMove {
    pub fn new(src: (u8, u8), dst: (u8, u8)) -> (r: Self)
        ensures
            r == (PerformedMove { src, dst }),
    {
        PerformedMove { src, dst }
    }

    /// The four-character text form, source then destination, e.g. "e2e4".
    pub fn text(&self) -> (r: String)
        requires
            self.src.0 < 8,
            self.src.1 < 8,
            self.dst.0 < 8,
            self.dst.1 < 8,
        ensures
            r@ =~= coord_text(self.src.0 as int, self.src.1 as int) + coord_text(
                self.dst.0 as int,
                self.dst.1 as int,
            ),
    {
        let mut s = coord_string(self.src.0, self.src.1);
        let d = coord_string(self.dst.0, self.dst.1);
        s.append(d.as_str());
        s
    }
}

} // verus!
