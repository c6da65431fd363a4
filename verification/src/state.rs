//! The game state: the board, whose turn it is, the move history, the
//! selected promotion kind, and the operations that generate and apply moves.

use vstd::prelude::*;

use crate::board::after_simple;
use crate::board::colour_is;
use crate::board::copy_vec;
use crate::board::first_king_idx;
use crate::board::has_piece;
use crate::board::in_board as on_board;
use crate::board::king_exists;
use crate::board::piece_at;
use crate::board::simple_applied;
use crate::board::sq;
use crate::board::wf_board;
use crate::board::with_content;
use crate::chess_move::ChessMove;
use crate::chess_move::MoveKind;
use crate::chess_move::PerformedMove;
use crate::gen::base_dest;
use crate::gen::castle_dest;
use crate::gen::castle_long_dest;
use crate::gen::castle_short_dest;
use crate::gen::contains_c;
use crate::gen::ep_dest;
use crate::gen::in_check;
use crate::gen::piece_on;
use crate::piece::ChessColour;
use crate::piece::Piece;
use crate::piece::PieceKind;
use crate::square::Square;

verus! {

/// The whole game state. The board is a vector of exactly 64 squares,
/// indexed as `file + 8 * rank`. `selected_square`, `mouse_pressed_previous`
/// and `game_running` belong to an interactive caller; the rules themselves
/// never read them.
#[derive(Clone, PartialEq, Debug)]
pub struct State {
    pub squares: Vec<Square>,
    pub turn: ChessColour,
    pub selected_square: Option<(u8, u8)>,
    pub mouse_pressed_previous: bool,
    pub game_running: bool,
    pub history: Vec<PerformedMove>,
    pub next_promotor: PieceKind,
}

/// The piece standing on a coordinate in the standard starting layout.
pub open spec fn start_piece(x: int, y: int) -> Option<Piece> {
    if y == 1 {
        Some(Piece::spec_fresh(PieceKind::Pawn, ChessColour::White))
    } else if y == 6 {
        Some(Piece::spec_fresh(PieceKind::Pawn, ChessColour::Black))
    } else if y == 0 || y == 7 {
        let c = if y == 0 {
            ChessColour::White
        } else {
            ChessColour::Black
        };
        if x == 0 || x == 7 {
            Some(Piece::spec_fresh(PieceKind::Rook, c))
        } else if x == 1 || x == 6 {
            Some(Piece::spec_fresh(PieceKind::Knight, c))
        } else if x == 2 || x == 5 {
            Some(Piece::spec_fresh(PieceKind::Bishop, c))
        } else if x == 3 {
            Some(Piece::spec_fresh(PieceKind::Queen, c))
        } else {
            Some(Piece::spec_fresh(PieceKind::King, c))
        }
    } else {
        None
    }
}

/// The home square of the rook that takes part in a castle.
pub open spec fn castle_rook_coord(long: bool, col: ChessColour) -> (u8, u8) {
    (
        if long {
            0u8
        } else {
            7u8
        },
        if col == ChessColour::White {
            0u8
        } else {
            7u8
        },
    )
}

/// The square that rook is relocated to.
pub open spec fn castle_rook_target(long: bool, col: ChessColour) -> (u8, u8) {
    (
        if long {
            3u8
        } else {
            5u8
        },
        if col == ChessColour::White {
            0u8
        } else {
            7u8
        },
    )
}

/// The coordinate of the first king of `col` (meaningful only when one
/// exists).
pub open spec fn spec_king_coord(b: Seq<Square>, col: ChessColour) -> (u8, u8) {
    let ki = first_king_idx(b, col);
    (((ki % 8) as u8), ((ki / 8) as u8))
}

/// The square the castling king is relocated to, on its own rank.
pub open spec fn castle_king_target(long: bool, ky: u8) -> (u8, u8) {
    (
        if long {
            2u8
        } else {
            6u8
        },
        ky,
    )
}

/// The board after a castle of `col`: the rook is relocated first, then the
/// king; both relocations set `has_moved`.
pub open spec fn board_after_castle(b: Seq<Square>, long: bool, col: ChessColour) -> Seq<Square> {
    let rc = castle_rook_coord(long, col);
    let rt = castle_rook_target(long, col);
    let kc = spec_king_coord(b, col);
    let kt = castle_king_target(long, kc.1);
    let b1 = after_simple(b, rc.0 as int, rc.1 as int, rt.0 as int, rt.1 as int);
    after_simple(b1, kc.0 as int, kc.1 as int, kt.0 as int, kt.1 as int)
}

/// The history after a castle: one record for the rook, then one for the
/// king.
pub open spec fn history_after_castle(
    h: Seq<PerformedMove>,
    b: Seq<Square>,
    long: bool,
    col: ChessColour,
) -> Seq<PerformedMove> {
    let rc = castle_rook_coord(long, col);
    let rt = castle_rook_target(long, col);
    let kc = spec_king_coord(b, col);
    let kt = castle_king_target(long, kc.1);
    h.push(PerformedMove { src: rc, dst: rt }).push(PerformedMove { src: kc, dst: kt })
}

/// The board after an en passant capture from `s` to `d`: the capturing pawn
/// is copied to the destination as it stands, the passed pawn (destination
/// file, source rank) is removed, and the source is cleared.
pub open spec fn board_after_en_passant(b: Seq<Square>, s: (u8, u8), d: (u8, u8)) -> Seq<Square> {
    let b1 = b.update(
        sq(d.0 as int, d.1 as int),
        Square { coords: b[sq(d.0 as int, d.1 as int)].coords, content: piece_at(b, s.0 as int, s.1 as int) },
    );
    let b2 = b1.update(
        sq(d.0 as int, s.1 as int),
        Square { coords: b1[sq(d.0 as int, s.1 as int)].coords, content: None },
    );
    b2.update(
        sq(s.0 as int, s.1 as int),
        Square { coords: b2[sq(s.0 as int, s.1 as int)].coords, content: None },
    )
}

/// The board after a promotion from `s` to `d`: the destination receives a
/// fresh piece of the selected kind in the mover's colour, the source is
/// cleared.
pub open spec fn board_after_promotion(
    b: Seq<Square>,
    promotor: PieceKind,
    s: (u8, u8),
    d: (u8, u8),
) -> Seq<Square> {
    let col = piece_on(b, s.0 as int, s.1 as int).colour;
    let b1 = b.update(
        sq(d.0 as int, d.1 as int),
        Square {
            coords: b[sq(d.0 as int, d.1 as int)].coords,
            content: Some(
                Piece { kind: promotor, colour: col, has_moved: true, en_passanteable: false },
            ),
        },
    );
    b1.update(
        sq(s.0 as int, s.1 as int),
        Square { coords: b1[sq(s.0 as int, s.1 as int)].coords, content: None },
    )
}

/// The board after a double pawn push recorded in the move's own source
/// square: that square's pawn is rewritten as moved and en-passant-eligible,
/// then the generic relocation step moves the piece at `src` to the
/// destination.
pub open spec fn board_after_double_push(
    b: Seq<Square>,
    s: (u8, u8),
    colour: ChessColour,
    src: (u8, u8),
    d: (u8, u8),
) -> Seq<Square> {
    let b1 = b.update(
        sq(s.0 as int, s.1 as int),
        Square {
            coords: b[sq(s.0 as int, s.1 as int)].coords,
            content: Some(
                Piece {
                    kind: PieceKind::Pawn,
                    colour,
                    has_moved: true,
                    en_passanteable: true,
                },
            ),
        },
    );
    after_simple(b1, src.0 as int, src.1 as int, d.0 as int, d.1 as int)
}

/// What a move may be applied to: the occupancy and bounds each kind's
/// effect relies on. A move failing this would make its effect read an
/// empty or off-board square.
pub open spec fn move_applicable(
    b: Seq<Square>,
    promotor: PieceKind,
    src: (u8, u8),
    m: ChessMove,
) -> bool {
    on_board(m.dst.0 as int, m.dst.1 as int) && match m.kind {
        MoveKind::Dummy => on_board(src.0 as int, src.1 as int) && has_piece(
            b,
            src.0 as int,
            src.1 as int,
        ),
        MoveKind::Normal { src: s } => on_board(src.0 as int, src.1 as int) && has_piece(
            b,
            src.0 as int,
            src.1 as int,
        ),
        MoveKind::DoublePush { src: s, colour } => on_board(s.0 as int, s.1 as int) && on_board(
            src.0 as int,
            src.1 as int,
        ) && (has_piece(b, src.0 as int, src.1 as int) || s == src),
        MoveKind::EnPassant { src: s } => on_board(s.0 as int, s.1 as int),
        MoveKind::Promotion { src: s } => on_board(s.0 as int, s.1 as int) && has_piece(
            b,
            s.0 as int,
            s.1 as int,
        ) && promotor != PieceKind::Pawn && promotor != PieceKind::King,
        MoveKind::Castle { long, colour } => {
            let rc = castle_rook_coord(long, colour);
            &&& king_exists(b, colour)
            &&& has_piece(b, rc.0 as int, rc.1 as int)
            &&& first_king_idx(b, colour) != sq(rc.0 as int, rc.1 as int)
        },
    }
}

/// The board after applying `m` from `src`.
pub open spec fn board_after_move(
    b: Seq<Square>,
    promotor: PieceKind,
    src: (u8, u8),
    m: ChessMove,
) -> Seq<Square> {
    match m.kind {
        MoveKind::Dummy => after_simple(b, src.0 as int, src.1 as int, m.dst.0 as int, m.dst.1 as int),
        MoveKind::Normal { src: s } => after_simple(
            b,
            src.0 as int,
            src.1 as int,
            m.dst.0 as int,
            m.dst.1 as int,
        ),
        MoveKind::DoublePush { src: s, colour } => board_after_double_push(b, s, colour, src, m.dst),
        MoveKind::EnPassant { src: s } => board_after_en_passant(b, s, m.dst),
        MoveKind::Promotion { src: s } => board_after_promotion(b, promotor, s, m.dst),
        MoveKind::Castle { long, colour } => board_after_castle(b, long, colour),
    }
}

/// The history after applying `m` from `src`: one record from the move's own
/// source square, none for a scratch (`Dummy`) relocation, two for a castle.
pub open spec fn history_after_move(
    h: Seq<PerformedMove>,
    b: Seq<Square>,
    src: (u8, u8),
    m: ChessMove,
) -> Seq<PerformedMove> {
    match m.kind {
        MoveKind::Dummy => h,
        MoveKind::Normal { src: s } => h.push(PerformedMove { src: s, dst: m.dst }),
        MoveKind::DoublePush { src: s, colour } => h.push(PerformedMove { src: s, dst: m.dst }),
        MoveKind::EnPassant { src: s } => h.push(PerformedMove { src: s, dst: m.dst }),
        MoveKind::Promotion { src: s } => h.push(PerformedMove { src: s, dst: m.dst }),
        MoveKind::Castle { long, colour } => history_after_castle(h, b, long, colour),
    }
}

impl State {
    /// The starting position: White to move, empty history, queen selected
    /// as the promotion kind.
    pub fn new() -> (r: Self)
        ensures
            wf_board(r.squares@),
            forall|x: int, y: int|
                on_board(x, y) ==> piece_at(r.squares@, x, y) == start_piece(x, y),
            r.turn == ChessColour::White,
            r.selected_square is None,
            r.mouse_pressed_previous == false,
            r.game_running == true,
            r.history@ =~= Seq::<PerformedMove>::empty(),
            r.next_promotor == PieceKind::Queen,
    {
        let mut squares: Vec<Square> = Vec::new();
        let mut i: usize = 0;
        while i < 64
            invariant
                0 <= i <= 64,
                squares@.len() == i,
                forall|j: int|
                    0 <= j < i ==> (#[trigger] squares@[j]).coords == (((j % 8) as u8, (
                    j / 8) as u8)),
                forall|j: int|
                    0 <= j < i ==> (#[trigger] squares@[j]).content == start_piece(j % 8, j / 8),
            decreases 64 - i,
        {
            let x: u8 = (i % 8) as u8;
            let y: u8 = (i / 8) as u8;
            let content = Piece::from_char(
                match (x, y) {
                    (_, 1) => 'P',
                    (_, 6) => 'p',
                    (0, 0) | (7, 0) => 'R',
                    (0, 7) | (7, 7) => 'r',
                    (1, 0) | (6, 0) => 'N',
                    (1, 7) | (6, 7) => 'n',
                    (2, 0) | (5, 0) => 'B',
                    (2, 7) | (5, 7) => 'b',
                    (3, 0) => 'Q',
                    (3, 7) => 'q',
                    (4, 0) => 'K',
                    (4, 7) => 'k',
                    _ => ' ',
                },
            );
            squares.push(Square { coords: (x, y), content });
            i = i + 1;
        }
        assert forall|x: int, y: int|
            on_board(x, y) implies piece_at(squares@, x, y) == start_piece(x, y) by {
            assert(squares@[sq(x, y)].content == start_piece(sq(x, y) % 8, sq(x, y) / 8));
            assert(sq(x, y) % 8 == x && sq(x, y) / 8 == y);
        }
        State {
            squares,
            turn: ChessColour::White,
            selected_square: None,
            mouse_pressed_previous: false,
            game_running: true,
            history: Vec::new(),
            next_promotor: PieceKind::Queen,
        }
    }

    /// A full-fidelity copy: the collaborator contract asks that a state be
    /// cheaply and completely duplicable.
    pub fn duplicate(&self) -> (r: State)
        ensures
            r.squares@ =~= self.squares@,
            r.turn == self.turn,
            r.selected_square == self.selected_square,
            r.mouse_pressed_previous == self.mouse_pressed_previous,
            r.game_running == self.game_running,
            r.history@ =~= self.history@,
            r.next_promotor == self.next_promotor,
    {
        State {
            squares: copy_vec(&self.squares),
            turn: self.turn,
            selected_square: self.selected_square,
            mouse_pressed_previous: self.mouse_pressed_previous,
            game_running: self.game_running,
            history: copy_vec(&self.history),
            next_promotor: self.next_promotor,
        }
    }

    /// The recorded coordinate of the first square holding the king of
    /// `col`. A board with no such king is a corrupted state, excluded here.
    pub fn get_king_coord(&self, col: ChessColour) -> (r: (u8, u8))
        requires
            self.squares@.len() == 64,
            king_exists(self.squares@, col),
        ensures
            r == self.squares@[first_king_idx(self.squares@, col)].coords,
    {
        let ki = crate::board::find_king_idx(&self.squares, col);
        self.squares[ki].coords
    }

    /// Whether `col` stands in check. A board with no king of `col` is a
    /// corrupted state, excluded here.
    pub fn is_in_check(&self, col: ChessColour) -> (r: bool)
        requires
            self.squares@.len() == 64,
            king_exists(self.squares@, col),
        ensures
            r == in_check(self.squares@, col),
    {
        crate::gen::in_check_board(&self.squares, col)
    }

    /// Plain relocation: the destination receives the source piece with
    /// `has_moved` set, the source is cleared. No history record.
    fn relocate(&mut self, src: (u8, u8), dst: (u8, u8))
        requires
            old(self).squares@.len() == 64,
            on_board(src.0 as int, src.1 as int),
            on_board(dst.0 as int, dst.1 as int),
            has_piece(old(self).squares@, src.0 as int, src.1 as int),
        ensures
            final(self).squares@ =~= after_simple(
                old(self).squares@,
                src.0 as int,
                src.1 as int,
                dst.0 as int,
                dst.1 as int,
            ),
            final(self).turn == old(self).turn,
            final(self).selected_square == old(self).selected_square,
            final(self).mouse_pressed_previous == old(self).mouse_pressed_previous,
            final(self).game_running == old(self).game_running,
            final(self).history@ =~= old(self).history@,
            final(self).next_promotor == old(self).next_promotor,
    {
        let nb = simple_applied(&self.squares, src, dst);
        self.squares = nb;
    }

    /// The en passant effect: relocates the capturing pawn from `src` to
    /// `dst` as it stands and removes the passed pawn at (destination file,
    /// source rank). No history record.
    pub fn en_passant(&mut self, src: (u8, u8), dst: (u8, u8))
        requires
            old(self).squares@.len() == 64,
            on_board(src.0 as int, src.1 as int),
            on_board(dst.0 as int, dst.1 as int),
        ensures
            final(self).squares@ =~= board_after_en_passant(old(self).squares@, src, dst),
            final(self).turn == old(self).turn,
            final(self).selected_square == old(self).selected_square,
            final(self).mouse_pressed_previous == old(self).mouse_pressed_previous,
            final(self).game_running == old(self).game_running,
            final(self).history@ =~= old(self).history@,
            final(self).next_promotor == old(self).next_promotor,
    {
        let moving = crate::board::square_at(&self.squares, src.0, src.1).content;
        let b1 = with_content(&self.squares, dst.0, dst.1, moving);
        let b2 = with_content(&b1, dst.0, src.1, None);
        let b3 = with_content(&b2, src.0, src.1, None);
        self.squares = b3;
    }

    /// The promotion effect: the destination receives a fresh piece of the
    /// currently selected promotion kind in the source piece's colour, and
    /// the source is cleared. The selected kind is never a pawn or a king.
    /// No history record.
    pub fn promote_pawn(&mut self, src: (u8, u8), dst: (u8, u8))
        requires
            old(self).squares@.len() == 64,
            on_board(src.0 as int, src.1 as int),
            on_board(dst.0 as int, dst.1 as int),
            has_piece(old(self).squares@, src.0 as int, src.1 as int),
            old(self).next_promotor != PieceKind::Pawn,
            old(self).next_promotor != PieceKind::King,
        ensures
            final(self).squares@ =~= board_after_promotion(
                old(self).squares@,
                old(self).next_promotor,
                src,
                dst,
            ),
            final(self).turn == old(self).turn,
            final(self).selected_square == old(self).selected_square,
            final(self).mouse_pressed_previous == old(self).mouse_pressed_previous,
            final(self).game_running == old(self).game_running,
            final(self).history@ =~= old(self).history@,
            final(self).next_promotor == old(self).next_promotor,
    {
        let col = match crate::board::square_at(&self.squares, src.0, src.1).content {
            Some(p) => p.colour,
            None => {
                proof {
                    assert(false);
                }
                ChessColour::White
            },
        };
        let promoted = Piece {
            kind: self.next_promotor,
            colour: col,
            has_moved: true,
            en_passanteable: false,
        };
        let b1 = with_content(&self.squares, dst.0, dst.1, Some(promoted));
        let b2 = with_content(&b1, src.0, src.1, None);
        self.squares = b2;
    }

    /// The castle effect for `col`: records the rook's move, relocates the
    /// rook, records the king's move, relocates the king. Assumes the
    /// availability checks have been performed: the rook's home square is
    /// occupied and the king does not stand on it.
    pub fn perform_castle(&mut self, long_castle: bool, col: ChessColour)
        requires
            wf_board(old(self).squares@),
            king_exists(old(self).squares@, col),
            has_piece(
                old(self).squares@,
                castle_rook_coord(long_castle, col).0 as int,
                castle_rook_coord(long_castle, col).1 as int,
            ),
            first_king_idx(old(self).squares@, col) != sq(
                castle_rook_coord(long_castle, col).0 as int,
                castle_rook_coord(long_castle, col).1 as int,
            ),
        ensures
            final(self).squares@ =~= board_after_castle(old(self).squares@, long_castle, col),
            final(self).history@ =~= history_after_castle(
                old(self).history@,
                old(self).squares@,
                long_castle,
                col,
            ),
            wf_board(final(self).squares@),
            final(self).turn == old(self).turn,
            final(self).selected_square == old(self).selected_square,
            final(self).mouse_pressed_previous == old(self).mouse_pressed_previous,
            final(self).game_running == old(self).game_running,
            final(self).next_promotor == old(self).next_promotor,
    {
        proof {
            crate::board::lemma_first_king_idx(self.squares@, col);
        }
        let rook_coord: (u8, u8) = (
            if long_castle {
                0
            } else {
                7
            },
            if col == ChessColour::White {
                0
            } else {
                7
            },
        );
        let king_coord = self.get_king_coord(col);
        let rook_target: (u8, u8) = (
            if long_castle {
                3
            } else {
                5
            },
            rook_coord.1,
        );
        let king_target: (u8, u8) = (
            if long_castle {
                2
            } else {
                6
            },
            king_coord.1,
        );
        let ghost b0 = self.squares@;
        self.history.push(PerformedMove::new(rook_coord, rook_target));
        self.relocate(rook_coord, rook_target);
        proof {
            crate::board::lemma_after_simple_wf(
                b0,
                rook_coord.0 as int,
                rook_coord.1 as int,
                rook_target.0 as int,
                rook_target.1 as int,
            );
        }
        self.history.push(PerformedMove::new(king_coord, king_target));
        self.relocate(king_coord, king_target);
        proof {
            crate::board::lemma_after_simple_wf(
                self.squares@,
                king_coord.0 as int,
                king_coord.1 as int,
                king_target.0 as int,
                king_target.1 as int,
            );
        }
    }

    /// Whether `m` may be applied from `src` in this state: the occupancy
    /// and bounds its effect relies on.
    pub fn can_apply(&self, src: (u8, u8), m: ChessMove) -> (r: bool)
        requires
            self.squares@.len() == 64,
        ensures
            r == move_applicable(self.squares@, self.next_promotor, src, m),
    {
        if !(m.dst.0 < 8 && m.dst.1 < 8) {
            return false;
        }
        match m.kind {
            MoveKind::Dummy | MoveKind::Normal { .. } => src.0 < 8 && src.1 < 8
                && crate::board::square_at(&self.squares, src.0, src.1).content.is_some(),
            MoveKind::DoublePush { src: s, colour } => s.0 < 8 && s.1 < 8 && src.0 < 8 && src.1 < 8
                && (crate::board::square_at(&self.squares, src.0, src.1).content.is_some() || (
            s.0 == src.0 && s.1 == src.1)),
            MoveKind::EnPassant { src: s } => s.0 < 8 && s.1 < 8,
            MoveKind::Promotion { src: s } => s.0 < 8 && s.1 < 8 && crate::board::square_at(
                &self.squares,
                s.0,
                s.1,
            ).content.is_some() && self.next_promotor != PieceKind::Pawn && self.next_promotor
                != PieceKind::King,
            MoveKind::Castle { long, colour } => {
                let ki = crate::board::find_king_idx(&self.squares, colour);
                if ki >= 64 {
                    return false;
                }
                let rc: (u8, u8) = (
                    if long {
                        0
                    } else {
                        7
                    },
                    if colour == ChessColour::White {
                        0
                    } else {
                        7
                    },
                );
                crate::board::square_at(&self.squares, rc.0, rc.1).content.is_some() && ki != (
                rc.0 as usize) + 8 * (rc.1 as usize)
            },
        }
    }

    /// Applies `m` from `src`: the move's own effect runs first; if it does
    /// not already relocate the piece (a plain or double-push move), the
    /// generic relocation step moves the piece at `src` to the destination.
    pub fn make_move(&mut self, src: (u8, u8), chess_move: ChessMove)
        requires
            wf_board(old(self).squares@),
            move_applicable(old(self).squares@, old(self).next_promotor, src, chess_move),
        ensures
            final(self).squares@ =~= board_after_move(
                old(self).squares@,
                old(self).next_promotor,
                src,
                chess_move,
            ),
            final(self).history@ =~= history_after_move(
                old(self).history@,
                old(self).squares@,
                src,
                chess_move,
            ),
            wf_board(final(self).squares@),
            final(self).turn == old(self).turn,
            final(self).selected_square == old(self).selected_square,
            final(self).mouse_pressed_previous == old(self).mouse_pressed_previous,
            final(self).game_running == old(self).game_running,
            final(self).next_promotor == old(self).next_promotor,
    {
        let dst = chess_move.dst;
        match chess_move.kind {
            MoveKind::Dummy => {
                self.relocate(src, dst);
                proof {
                    crate::board::lemma_after_simple_wf(
                        old(self).squares@,
                        src.0 as int,
                        src.1 as int,
                        dst.0 as int,
                        dst.1 as int,
                    );
                }
            },
            MoveKind::Normal { src: s } => {
                self.history.push(PerformedMove::new(s, dst));
                self.relocate(src, dst);
                proof {
                    crate::board::lemma_after_simple_wf(
                        old(self).squares@,
                        src.0 as int,
                        src.1 as int,
                        dst.0 as int,
                        dst.1 as int,
                    );
                }
            },
            MoveKind::DoublePush { src: s, colour } => {
                self.history.push(PerformedMove::new(s, dst));
                let flagged = Piece {
                    kind: PieceKind::Pawn,
                    colour,
                    has_moved: true,
                    en_passanteable: true,
                };
                let b1 = with_content(&self.squares, s.0, s.1, Some(flagged));
                self.squares = b1;
                proof {
                    crate::board::lemma_update_keeps_wf(
                        old(self).squares@,
                        s.0 as int,
                        s.1 as int,
                        Some(flagged),
                    );
                }
                self.relocate(src, dst);
                proof {
                    crate::board::lemma_after_simple_wf(
                        b1@,
                        src.0 as int,
                        src.1 as int,
                        dst.0 as int,
                        dst.1 as int,
                    );
                }
            },
            MoveKind::EnPassant { src: s } => {
                self.history.push(PerformedMove::new(s, dst));
                self.en_passant(s, dst);
                proof {
                    let b = old(self).squares@;
                    crate::board::lemma_update_keeps_wf(
                        b,
                        dst.0 as int,
                        dst.1 as int,
                        piece_at(b, s.0 as int, s.1 as int),
                    );
                    let b1 = b.update(
                        sq(dst.0 as int, dst.1 as int),
                        Square {
                            coords: b[sq(dst.0 as int, dst.1 as int)].coords,
                            content: piece_at(b, s.0 as int, s.1 as int),
                        },
                    );
                    crate::board::lemma_update_keeps_wf(b1, dst.0 as int, s.1 as int, None);
                    let b2 = b1.update(
                        sq(dst.0 as int, s.1 as int),
                        Square { coords: b1[sq(dst.0 as int, s.1 as int)].coords, content: None },
                    );
                    crate::board::lemma_update_keeps_wf(b2, s.0 as int, s.1 as int, None);
                }
            },
            MoveKind::Promotion { src: s } => {
                self.history.push(PerformedMove::new(s, dst));
                self.promote_pawn(s, dst);
                proof {
                    let b = old(self).squares@;
                    let col = piece_on(b, s.0 as int, s.1 as int).colour;
                    let promoted = Piece {
                        kind: old(self).next_promotor,
                        colour: col,
                        has_moved: true,
                        en_passanteable: false,
                    };
                    crate::board::lemma_update_keeps_wf(
                        b,
                        dst.0 as int,
                        dst.1 as int,
                        Some(promoted),
                    );
                    let b1 = b.update(
                        sq(dst.0 as int, dst.1 as int),
                        Square {
                            coords: b[sq(dst.0 as int, dst.1 as int)].coords,
                            content: Some(promoted),
                        },
                    );
                    crate::board::lemma_update_keeps_wf(b1, s.0 as int, s.1 as int, None);
                }
            },
            MoveKind::Castle { long, colour } => {
                self.perform_castle(long, colour);
            },
        }
    }
}

/// Whether relocating `p` from `(cx, cy)` to `(tx, ty)` leaves its own side
/// in check.
pub open spec fn exposes(b: Seq<Square>, cx: int, cy: int, p: Piece, tx: int, ty: int) -> bool {
    in_check(after_simple(b, cx, cy, tx, ty), p.colour)
}

/// Whether `(tx, ty)` belongs to the set of moves reported for `p` at
/// `(cx, cy)`: a base or en passant destination, filtered for check exposure
/// when `test` is set (the exposure test simulates the candidate as a plain
/// relocation), or a castling candidate. Castling alone bypasses the filter
/// (a deliberate open question, not silently patched).
pub open spec fn member_dest(
    b: Seq<Square>,
    cx: int,
    cy: int,
    p: Piece,
    test: bool,
    tx: int,
    ty: int,
) -> bool {
    ||| ((base_dest(b, cx, cy, p, tx, ty) || ep_dest(b, cx, cy, p, tx, ty)) && (test
        ==> !exposes(b, cx, cy, p, tx, ty)))
    ||| castle_dest(b, cx, cy, p, tx, ty)
}

/// Whether a move list holds a move to `(tx, ty)`.
pub open spec fn contains_dst(s: Seq<ChessMove>, tx: int, ty: int) -> bool {
    exists|i: int| 0 <= i < s.len() && (#[trigger] s[i]).dst.0 == tx && s[i].dst.1 == ty
}

/// Whether no two moves in the list share a destination.
pub open spec fn nodup_dst(s: Seq<ChessMove>) -> bool {
    forall|i: int, j: int| 0 <= i < j < s.len() ==> (#[trigger] s[i]).dst != (#[trigger] s[j]).dst
}

/// The move the generator attaches to destination `(tx, ty)` for `p` at
/// `(cx, cy)`: en passant takes precedence over an ordinary capture to the
/// same square; castling, promotion and the double push are recognised by
/// their shapes; everything else is a plain logged relocation.
pub open spec fn chosen_move(b: Seq<Square>, cx: int, cy: int, p: Piece, tx: int, ty: int) -> ChessMove {
    let dst = (((tx as u8)), ((ty as u8)));
    let src = (((cx as u8)), ((cy as u8)));
    if ep_dest(b, cx, cy, p, tx, ty) {
        ChessMove { dst, kind: MoveKind::EnPassant { src } }
    } else if castle_long_dest(b, cx, cy, p, tx, ty) {
        ChessMove { dst, kind: MoveKind::Castle { long: true, colour: p.colour } }
    } else if castle_short_dest(b, cx, cy, p, tx, ty) {
        ChessMove { dst, kind: MoveKind::Castle { long: false, colour: p.colour } }
    } else if p.kind == PieceKind::Pawn && (ty == 0 || ty == 7) {
        ChessMove { dst, kind: MoveKind::Promotion { src } }
    } else if p.kind == PieceKind::Pawn && !p.has_moved && (ty == cy + 2 || ty == cy - 2) {
        ChessMove { dst, kind: MoveKind::DoublePush { src, colour: p.colour } }
    } else {
        ChessMove { dst, kind: MoveKind::Normal { src } }
    }
}

/// Appending a move keeps every destination already present and adds the
/// new one.
proof fn lemma_push_contains(s: Seq<ChessMove>, m: ChessMove)
    ensures
        forall|tx: int, ty: int| contains_dst(s, tx, ty) ==> contains_dst(s.push(m), tx, ty),
        contains_dst(s.push(m), m.dst.0 as int, m.dst.1 as int),
{
    assert forall|tx: int, ty: int| contains_dst(s, tx, ty) implies contains_dst(
        s.push(m),
        tx,
        ty,
    ) by {
        let i = choose|i: int| 0 <= i < s.len() && (#[trigger] s[i]).dst.0 == tx && s[i].dst.1 == ty;
        assert((s.push(m))[i].dst.0 == tx && (s.push(m))[i].dst.1 == ty);
    }
    assert((s.push(m))[s.len() as int] == m);
}

/// The board with every piece of `col` stripped of its en passant
/// eligibility; everything else unchanged.
pub open spec fn ep_cleared(b: Seq<Square>, col: ChessColour) -> Seq<Square> {
    Seq::new(
        b.len(),
        |i: int|
            match b[i].content {
                Some(p) => if p.colour == col {
                    Square {
                        coords: b[i].coords,
                        content: Some(Piece { en_passanteable: false, ..p }),
                    }
                } else {
                    b[i]
                },
                None => b[i],
            },
    )
}

/// What a successful `attempt_move` needs: a selected square other than the
/// target, a target not held by a friendly piece, the target among the
/// legality-filtered moves of the selected piece, and the attached move
/// applicable to the board.
pub open spec fn attempt_ok(
    b: Seq<Square>,
    promotor: PieceKind,
    src: (u8, u8),
    target: (u8, u8),
) -> bool {
    let p = piece_on(b, src.0 as int, src.1 as int);
    &&& src != target
    &&& !colour_is(b, target.0 as int, target.1 as int, p.colour)
    &&& member_dest(b, src.0 as int, src.1 as int, p, true, target.0 as int, target.1 as int)
    &&& move_applicable(
        b,
        promotor,
        src,
        chosen_move(b, src.0 as int, src.1 as int, p, target.0 as int, target.1 as int),
    )
}

/// Whether `col` is checkmated: it stands in check and no applicable legal
/// move of any of its pieces leaves a position where it is out of check.
/// (A position with no legal move at all while not in check — stalemate —
/// is not recognised here: a deliberate open question, not silently
/// patched.)
pub open spec fn spec_checkmated(b: Seq<Square>, promotor: PieceKind, col: ChessColour) -> bool {
    in_check(b, col) && forall|x: int, y: int, tx: int, ty: int|
        (on_board(x, y) && colour_is(b, x, y, col) && #[trigger] member_dest(
            b,
            x,
            y,
            piece_on(b, x, y),
            true,
            tx,
            ty,
        ) && move_applicable(
            b,
            promotor,
            (((x as u8)), ((y as u8))),
            chosen_move(b, x, y, piece_on(b, x, y), tx, ty),
        )) ==> in_check(
            board_after_move(
                b,
                promotor,
                (((x as u8)), ((y as u8))),
                chosen_move(b, x, y, piece_on(b, x, y), tx, ty),
            ),
            col,
        )
}

/// The first move in `v` to destination `t`, if any.
pub fn find_dst(v: &Vec<ChessMove>, t: (u8, u8)) -> (r: Option<ChessMove>)
    ensures
        (r is Some) == contains_dst(v@, t.0 as int, t.1 as int),
        r is Some ==> (r->Some_0).dst == t && exists|i: int|
            0 <= i < v@.len() && v@[i] == r->Some_0,
{
    let mut i: usize = 0;
    while i < v.len()
        invariant
            0 <= i <= v@.len(),
            forall|j: int| 0 <= j < i ==> !((#[trigger] v@[j]).dst.0 == t.0 && v@[j].dst.1 == t.1),
        decreases v@.len() - i,
    {
        let m = v[i];
        if m.dst.0 == t.0 && m.dst.1 == t.1 {
            proof {
                assert(v@[i as int] == m);
            }
            return Some(m);
        }
        i = i + 1;
    }
    None
}

/// Whether `v` holds a move to destination `t`.
pub fn contains_move_dst(v: &Vec<ChessMove>, t: (u8, u8)) -> (r: bool)
    ensures
        r == contains_dst(v@, t.0 as int, t.1 as int),
{
    let mut i: usize = 0;
    while i < v.len()
        invariant
            0 <= i <= v@.len(),
            forall|j: int| 0 <= j < i ==> !((#[trigger] v@[j]).dst.0 == t.0 && v@[j].dst.1 == t.1),
        decreases v@.len() - i,
    {
        let m = v[i];
        if m.dst.0 == t.0 && m.dst.1 == t.1 {
            return true;
        }
        i = i + 1;
    }
    false
}

impl State {
    /// The moves available to the piece on `coord` (a corrupted, empty
    /// square is excluded). With `test_for_checks` the base and en passant
    /// destinations are filtered by simulating each candidate as a plain
    /// relocation and discarding those that leave the mover's own side in
    /// check; castling candidates bypass that filter (a deliberate open
    /// question, not silently patched). Destinations are unique; each
    /// carries the effect its shape calls for.
    #[verifier::loop_isolation(false)]
    #[verifier::rlimit(60)]
    pub fn get_moves(&self, coord: (u8, u8), test_for_checks: bool) -> (r: Vec<ChessMove>)
        requires
            self.squares@.len() == 64,
            on_board(coord.0 as int, coord.1 as int),
            has_piece(self.squares@, coord.0 as int, coord.1 as int),
        ensures
            ({
                let b = self.squares@;
                let cx = coord.0 as int;
                let cy = coord.1 as int;
                let p = piece_on(b, cx, cy);
                &&& nodup_dst(r@)
                &&& forall|i: int|
                    0 <= i < r@.len() ==> member_dest(
                        b,
                        cx,
                        cy,
                        p,
                        test_for_checks,
                        (#[trigger] r@[i]).dst.0 as int,
                        r@[i].dst.1 as int,
                    )
                &&& forall|i: int|
                    0 <= i < r@.len() ==> (#[trigger] r@[i]) == chosen_move(
                        b,
                        cx,
                        cy,
                        p,
                        r@[i].dst.0 as int,
                        r@[i].dst.1 as int,
                    )
                &&& forall|tx: int, ty: int|
                    #[trigger] member_dest(b, cx, cy, p, test_for_checks, tx, ty)
                        ==> contains_dst(r@, tx, ty)
                &&& forall|i: int|
                    0 <= i < r@.len() ==> on_board(
                        (#[trigger] r@[i]).dst.0 as int,
                        r@[i].dst.1 as int,
                    ) && r@[i].dst != coord
            }),
    {
        let ghost b = self.squares@;
        let ghost cxi = coord.0 as int;
        let ghost cyi = coord.1 as int;
        let p = match crate::board::square_at(&self.squares, coord.0, coord.1).content {
            Some(p) => p,
            None => {
                proof {
                    assert(false);
                }
                Piece {
                    kind: PieceKind::Pawn,
                    colour: ChessColour::White,
                    has_moved: false,
                    en_passanteable: false,
                }
            },
        };
        let base = crate::gen::base_dests(&self.squares, coord.0, coord.1, p);
        let eps = crate::gen::ep_dests(&self.squares, coord.0, coord.1, p);
        let castles = crate::gen::castle_dests(&self.squares, coord.0, coord.1, p);
        let mut result: Vec<ChessMove> = Vec::new();

        // en passant candidates come first (on a shared destination the en
        // passant effect wins), run through the legality filter when asked
        let mut i: usize = 0;
        while i < eps.len()
            invariant
                0 <= i <= eps@.len(),
                nodup_dst(result@),
                forall|k: int|
                    0 <= k < result@.len() ==> member_dest(
                        b,
                        cxi,
                        cyi,
                        p,
                        test_for_checks,
                        (#[trigger] result@[k]).dst.0 as int,
                        result@[k].dst.1 as int,
                    ),
                forall|k: int|
                    0 <= k < result@.len() ==> (#[trigger] result@[k]) == chosen_move(
                        b,
                        cxi,
                        cyi,
                        p,
                        result@[k].dst.0 as int,
                        result@[k].dst.1 as int,
                    ),
                forall|k: int|
                    0 <= k < result@.len() ==> ep_dest(
                        b,
                        cxi,
                        cyi,
                        p,
                        (#[trigger] result@[k]).dst.0 as int,
                        result@[k].dst.1 as int,
                    ),
                forall|ii: int|
                    0 <= ii < i ==> ((test_for_checks ==> !exposes(
                        b,
                        cxi,
                        cyi,
                        p,
                        (#[trigger] eps@[ii]).0 as int,
                        eps@[ii].1 as int,
                    )) ==> contains_dst(result@, eps@[ii].0 as int, eps@[ii].1 as int)),
            decreases eps@.len() - i,
        {
            let e = eps[i];
            proof {
                assert(contains_c(eps@, e.0 as int, e.1 as int));
                crate::gen::lemma_dest_on_board(b, cxi, cyi, p, e.0 as int, e.1 as int);
            }
            let mut keep = true;
            if test_for_checks {
                let nb = simple_applied(&self.squares, coord, e);
                if crate::gen::in_check_board(&nb, p.colour) {
                    keep = false;
                }
            }
            if keep {
                if !contains_move_dst(&result, e) {
                    let ghost prev = result@;
                    result.push(ChessMove { dst: e, kind: MoveKind::EnPassant { src: coord } });
                    proof {
                        lemma_push_contains(
                            prev,
                            ChessMove { dst: e, kind: MoveKind::EnPassant { src: coord } },
                        );
                        assert forall|ii: int| 0 <= ii < i + 1 implies ((test_for_checks
                            ==> !exposes(
                            b,
                            cxi,
                            cyi,
                            p,
                            (#[trigger] eps@[ii]).0 as int,
                            eps@[ii].1 as int,
                        )) ==> contains_dst(
                            result@,
                            eps@[ii].0 as int,
                            eps@[ii].1 as int,
                        )) by {
                            if ii < i && (test_for_checks ==> !exposes(
                                b,
                                cxi,
                                cyi,
                                p,
                                eps@[ii].0 as int,
                                eps@[ii].1 as int,
                            )) {
                                assert(contains_dst(prev, eps@[ii].0 as int, eps@[ii].1 as int));
                            }
                        }
                    }
                }
            }
            i = i + 1;
        }
        proof {
            assert forall|tx: int, ty: int|
                (ep_dest(b, cxi, cyi, p, tx, ty) && (test_for_checks ==> !exposes(
                    b,
                    cxi,
                    cyi,
                    p,
                    tx,
                    ty,
                ))) implies contains_dst(result@, tx, ty) by {
                assert(contains_c(eps@, tx, ty));
                let ii = choose|ii: int|
                    0 <= ii < eps@.len() && (#[trigger] eps@[ii]).0 == tx && eps@[ii].1 == ty;
                assert(contains_dst(result@, eps@[ii].0 as int, eps@[ii].1 as int));
            }
        }

        // base destinations, run through the legality filter when asked
        let mut j: usize = 0;
        while j < base.len()
            invariant
                0 <= j <= base@.len(),
                nodup_dst(result@),
                forall|k: int|
                    0 <= k < result@.len() ==> member_dest(
                        b,
                        cxi,
                        cyi,
                        p,
                        test_for_checks,
                        (#[trigger] result@[k]).dst.0 as int,
                        result@[k].dst.1 as int,
                    ),
                forall|k: int|
                    0 <= k < result@.len() ==> (#[trigger] result@[k]) == chosen_move(
                        b,
                        cxi,
                        cyi,
                        p,
                        result@[k].dst.0 as int,
                        result@[k].dst.1 as int,
                    ),
                forall|k: int|
                    0 <= k < result@.len() ==> ep_dest(
                        b,
                        cxi,
                        cyi,
                        p,
                        (#[trigger] result@[k]).dst.0 as int,
                        result@[k].dst.1 as int,
                    ) || base_dest(
                        b,
                        cxi,
                        cyi,
                        p,
                        result@[k].dst.0 as int,
                        result@[k].dst.1 as int,
                    ),
                forall|tx: int, ty: int|
                    (ep_dest(b, cxi, cyi, p, tx, ty) && (test_for_checks ==> !exposes(
                        b,
                        cxi,
                        cyi,
                        p,
                        tx,
                        ty,
                    ))) ==> contains_dst(result@, tx, ty),
                forall|jj: int|
                    0 <= jj < j ==> ((test_for_checks ==> !exposes(
                        b,
                        cxi,
                        cyi,
                        p,
                        (#[trigger] base@[jj]).0 as int,
                        base@[jj].1 as int,
                    )) ==> contains_dst(result@, base@[jj].0 as int, base@[jj].1 as int)),
            decreases base@.len() - j,
        {
            let t = base[j];
            proof {
                assert(contains_c(base@, t.0 as int, t.1 as int));
                crate::gen::lemma_dest_on_board(b, cxi, cyi, p, t.0 as int, t.1 as int);
            }
            let mut keep = true;
            if test_for_checks {
                let nb = simple_applied(&self.squares, coord, t);
                if crate::gen::in_check_board(&nb, p.colour) {
                    keep = false;
                }
            }
            if keep {
                if !contains_move_dst(&result, t) {
                    proof {
                        assert(!ep_dest(b, cxi, cyi, p, t.0 as int, t.1 as int));
                        assert(!castle_dest(b, cxi, cyi, p, t.0 as int, t.1 as int)) by {
                            if castle_dest(b, cxi, cyi, p, t.0 as int, t.1 as int) {
                                assert(p.kind == PieceKind::King);
                                assert(crate::gen::king_dest(
                                    b,
                                    cxi,
                                    cyi,
                                    p.colour,
                                    t.0 as int,
                                    t.1 as int,
                                ));
                            }
                        }
                    }
                    let kind = if p.kind == PieceKind::Pawn && (t.1 == 0 || t.1 == 7) {
                        MoveKind::Promotion { src: coord }
                    } else if p.kind == PieceKind::Pawn && !p.has_moved && (t.1 == coord.1 + 2
                        || coord.1 == t.1 + 2) {
                        MoveKind::DoublePush { src: coord, colour: p.colour }
                    } else {
                        MoveKind::Normal { src: coord }
                    };
                    let ghost prev = result@;
                    result.push(ChessMove { dst: t, kind });
                    proof {
                        lemma_push_contains(prev, ChessMove { dst: t, kind });
                        assert forall|tx: int, ty: int|
                            (ep_dest(b, cxi, cyi, p, tx, ty) && (test_for_checks ==> !exposes(
                                b,
                                cxi,
                                cyi,
                                p,
                                tx,
                                ty,
                            ))) implies contains_dst(result@, tx, ty) by {
                            assert(contains_dst(prev, tx, ty));
                        }
                    }
                }
            }
            j = j + 1;
        }

        // castling candidates
        let mut k: usize = 0;
        while k < castles.len()
            invariant
                0 <= k <= castles@.len(),
                nodup_dst(result@),
                forall|kk: int|
                    0 <= kk < result@.len() ==> member_dest(
                        b,
                        cxi,
                        cyi,
                        p,
                        test_for_checks,
                        (#[trigger] result@[kk]).dst.0 as int,
                        result@[kk].dst.1 as int,
                    ),
                forall|kk: int|
                    0 <= kk < result@.len() ==> (#[trigger] result@[kk]) == chosen_move(
                        b,
                        cxi,
                        cyi,
                        p,
                        result@[kk].dst.0 as int,
                        result@[kk].dst.1 as int,
                    ),
                forall|tx: int, ty: int|
                    (ep_dest(b, cxi, cyi, p, tx, ty) && (test_for_checks ==> !exposes(
                        b,
                        cxi,
                        cyi,
                        p,
                        tx,
                        ty,
                    ))) ==> contains_dst(result@, tx, ty),
                forall|jj: int|
                    0 <= jj < base@.len() ==> ((test_for_checks ==> !exposes(
                        b,
                        cxi,
                        cyi,
                        p,
                        (#[trigger] base@[jj]).0 as int,
                        base@[jj].1 as int,
                    )) ==> contains_dst(result@, base@[jj].0 as int, base@[jj].1 as int)),
                forall|kk: int|
                    0 <= kk < k ==> contains_dst(
                        result@,
                        (#[trigger] castles@[kk]).0 as int,
                        castles@[kk].1 as int,
                    ),
            decreases castles@.len() - k,
        {
            let t = castles[k];
            proof {
                assert(contains_c(castles@, t.0 as int, t.1 as int));
            }
            if !contains_move_dst(&result, t) {
                let long = t.0 < coord.0;
                proof {
                    assert(!ep_dest(b, cxi, cyi, p, t.0 as int, t.1 as int));
                }
                let ghost prev = result@;
                result.push(
                    ChessMove { dst: t, kind: MoveKind::Castle { long, colour: p.colour } },
                );
                proof {
                    lemma_push_contains(
                        prev,
                        ChessMove { dst: t, kind: MoveKind::Castle { long, colour: p.colour } },
                    );
                }
            }
            k = k + 1;
        }

        proof {
            assert forall|tx: int, ty: int|
                #[trigger] member_dest(b, cxi, cyi, p, test_for_checks, tx, ty) implies contains_dst(
                result@,
                tx,
                ty,
            ) by {
                if base_dest(b, cxi, cyi, p, tx, ty) && (test_for_checks ==> !exposes(
                    b,
                    cxi,
                    cyi,
                    p,
                    tx,
                    ty,
                )) {
                    assert(contains_c(base@, tx, ty));
                    let jj = choose|jj: int|
                        0 <= jj < base@.len() && base@[jj].0 == tx && base@[jj].1 == ty;
                    assert(contains_dst(result@, base@[jj].0 as int, base@[jj].1 as int));
                } else if ep_dest(b, cxi, cyi, p, tx, ty) && (test_for_checks ==> !exposes(
                    b,
                    cxi,
                    cyi,
                    p,
                    tx,
                    ty,
                )) {
                } else if castle_dest(b, cxi, cyi, p, tx, ty) {
                    assert(contains_c(castles@, tx, ty));
                    let kk = choose|kk: int|
                        0 <= kk < castles@.len() && castles@[kk].0 == tx && castles@[kk].1 == ty;
                    assert(contains_dst(result@, castles@[kk].0 as int, castles@[kk].1 as int));
                }
            }
            assert forall|i2: int| 0 <= i2 < result@.len() implies on_board(
                (#[trigger] result@[i2]).dst.0 as int,
                result@[i2].dst.1 as int,
            ) && result@[i2].dst != coord by {
                let tx = result@[i2].dst.0 as int;
                let ty = result@[i2].dst.1 as int;
                assert(member_dest(b, cxi, cyi, p, test_for_checks, tx, ty));
                crate::gen::lemma_dest_on_board(b, cxi, cyi, p, tx, ty);
            }
        }
        result
    }

    /// Tries to move the selected piece to `target_coordinate`, reporting
    /// whether the move was carried out. The target must be another square,
    /// not held by a friendly piece, and among the selected piece's
    /// legality-filtered moves; the attached effect must be applicable.
    /// Whatever happens, the selection is dropped.
    pub fn attempt_move(&mut self, target_coordinate: (u8, u8)) -> (r: bool)
        requires
            wf_board(old(self).squares@),
            old(self).selected_square is Some,
            on_board(
                (old(self).selected_square->Some_0).0 as int,
                (old(self).selected_square->Some_0).1 as int,
            ),
            has_piece(
                old(self).squares@,
                (old(self).selected_square->Some_0).0 as int,
                (old(self).selected_square->Some_0).1 as int,
            ),
            on_board(target_coordinate.0 as int, target_coordinate.1 as int),
        ensures
            ({
                let b = old(self).squares@;
                let src = old(self).selected_square->Some_0;
                let p = piece_on(b, src.0 as int, src.1 as int);
                let m = chosen_move(
                    b,
                    src.0 as int,
                    src.1 as int,
                    p,
                    target_coordinate.0 as int,
                    target_coordinate.1 as int,
                );
                &&& r == attempt_ok(b, old(self).next_promotor, src, target_coordinate)
                &&& final(self).selected_square is None
                &&& (r ==> final(self).squares@ =~= board_after_move(
                    b,
                    old(self).next_promotor,
                    src,
                    m,
                ) && final(self).history@ =~= history_after_move(
                    old(self).history@,
                    b,
                    src,
                    m,
                ))
                &&& (!r ==> final(self).squares@ =~= b && final(self).history@ =~= old(
                    self,
                ).history@)
                &&& wf_board(final(self).squares@)
                &&& final(self).turn == old(self).turn
                &&& final(self).mouse_pressed_previous == old(self).mouse_pressed_previous
                &&& final(self).game_running == old(self).game_running
                &&& final(self).next_promotor == old(self).next_promotor
            }),
    {
        let src = match self.selected_square {
            Some(s) => s,
            None => {
                proof {
                    assert(false);
                }
                (0, 0)
            },
        };
        let source_piece = match crate::board::square_at(&self.squares, src.0, src.1).content {
            Some(p) => p,
            None => {
                proof {
                    assert(false);
                }
                Piece {
                    kind: PieceKind::Pawn,
                    colour: ChessColour::White,
                    has_moved: false,
                    en_passanteable: false,
                }
            },
        };
        let target_square = crate::board::square_at(
            &self.squares,
            target_coordinate.0,
            target_coordinate.1,
        );
        let mut return_value = false;
        if !(src.0 == target_coordinate.0 && src.1 == target_coordinate.1) {
            let friendly = match target_square.content {
                Some(q) => q.colour == source_piece.colour,
                None => false,
            };
            if !friendly {
                let moves = self.get_moves(src, true);
                match find_dst(&moves, target_coordinate) {
                    Some(move_to_be_made) => {
                        proof {
                            let i = choose|i: int|
                                0 <= i < moves@.len() && moves@[i] == move_to_be_made;
                            assert(moves@[i] == chosen_move(
                                self.squares@,
                                src.0 as int,
                                src.1 as int,
                                source_piece,
                                moves@[i].dst.0 as int,
                                moves@[i].dst.1 as int,
                            ));
                            assert(member_dest(
                                self.squares@,
                                src.0 as int,
                                src.1 as int,
                                source_piece,
                                true,
                                moves@[i].dst.0 as int,
                                moves@[i].dst.1 as int,
                            ));
                        }
                        if self.can_apply(src, move_to_be_made) {
                            self.make_move(src, move_to_be_made);
                            return_value = true;
                        }
                    },
                    None => {},
                }
            }
        }
        self.selected_square = None;
        return_value
    }

    /// Strips en passant eligibility from every piece of `col`; the flag
    /// survives exactly one ply, and the caller invokes this for the side
    /// that has just regained the move.
    pub fn clear_en_passant(&mut self, col: ChessColour)
        requires
            old(self).squares@.len() == 64,
        ensures
            final(self).squares@ =~= ep_cleared(old(self).squares@, col),
            wf_board(old(self).squares@) ==> wf_board(final(self).squares@),
            final(self).turn == old(self).turn,
            final(self).selected_square == old(self).selected_square,
            final(self).mouse_pressed_previous == old(self).mouse_pressed_previous,
            final(self).game_running == old(self).game_running,
            final(self).history@ =~= old(self).history@,
            final(self).next_promotor == old(self).next_promotor,
    {
        let ghost b0 = self.squares@;
        let mut nb: Vec<Square> = Vec::new();
        let mut i: usize = 0;
        while i < 64
            invariant
                self.squares@.len() == 64,
                self.squares@ == b0,
                0 <= i <= 64,
                nb@.len() == i,
                forall|j: int| 0 <= j < i ==> nb@[j] == ep_cleared(b0, col)[j],
            decreases 64 - i,
        {
            let s = self.squares[i];
            let cell = match s.content {
                Some(p) => if p.colour == col {
                    Square {
                        coords: s.coords,
                        content: Some(
                            Piece {
                                kind: p.kind,
                                colour: p.colour,
                                has_moved: p.has_moved,
                                en_passanteable: false,
                            },
                        ),
                    }
                } else {
                    s
                },
                None => s,
            };
            nb.push(cell);
            i = i + 1;
        }
        self.squares = nb;
    }

    /// Every legality-filtered move of every piece of `col`, paired with the
    /// square it moves from.
    #[verifier::loop_isolation(false)]
    pub fn get_all_moves_for_colour(&self, col: ChessColour) -> (r: Vec<((u8, u8), ChessMove)>)
        requires
            self.squares@.len() == 64,
        ensures
            ({
                let b = self.squares@;
                &&& forall|k: int|
                    0 <= k < r@.len() ==> {
                        let c = (#[trigger] r@[k]).0;
                        let m = r@[k].1;
                        &&& on_board(c.0 as int, c.1 as int)
                        &&& colour_is(b, c.0 as int, c.1 as int, col)
                        &&& m == chosen_move(
                            b,
                            c.0 as int,
                            c.1 as int,
                            piece_on(b, c.0 as int, c.1 as int),
                            m.dst.0 as int,
                            m.dst.1 as int,
                        )
                        &&& member_dest(
                            b,
                            c.0 as int,
                            c.1 as int,
                            piece_on(b, c.0 as int, c.1 as int),
                            true,
                            m.dst.0 as int,
                            m.dst.1 as int,
                        )
                    }
                &&& forall|x: int, y: int, tx: int, ty: int|
                    (on_board(x, y) && colour_is(b, x, y, col) && #[trigger] member_dest(
                        b,
                        x,
                        y,
                        piece_on(b, x, y),
                        true,
                        tx,
                        ty,
                    )) ==> exists|k: int|
                        0 <= k < r@.len() && (#[trigger] r@[k]).0.0 == x && r@[k].0.1 == y
                            && r@[k].1.dst.0 == tx && r@[k].1.dst.1 == ty
            }),
    {
        let ghost b = self.squares@;
        let mut result: Vec<((u8, u8), ChessMove)> = Vec::new();
        let mut i: usize = 0;
        while i < 64
            invariant
                forall|k: int|
                    0 <= k < result@.len() ==> {
                        let c = (#[trigger] result@[k]).0;
                        let m = result@[k].1;
                        &&& on_board(c.0 as int, c.1 as int)
                        &&& colour_is(b, c.0 as int, c.1 as int, col)
                        &&& m == chosen_move(
                            b,
                            c.0 as int,
                            c.1 as int,
                            piece_on(b, c.0 as int, c.1 as int),
                            m.dst.0 as int,
                            m.dst.1 as int,
                        )
                        &&& member_dest(
                            b,
                            c.0 as int,
                            c.1 as int,
                            piece_on(b, c.0 as int, c.1 as int),
                            true,
                            m.dst.0 as int,
                            m.dst.1 as int,
                        )
                    },
                forall|x: int, y: int, tx: int, ty: int|
                    (on_board(x, y) && sq(x, y) < i && colour_is(b, x, y, col)
                        && #[trigger] member_dest(b, x, y, piece_on(b, x, y), true, tx, ty))
                        ==> exists|k: int|
                        0 <= k < result@.len() && (#[trigger] result@[k]).0.0 == x && result@[k].0.1
                            == y && result@[k].1.dst.0 == tx && result@[k].1.dst.1 == ty,
                0 <= i <= 64,
            decreases 64 - i,
        {
            let s = self.squares[i];
            let take = match s.content {
                Some(q) => q.colour == col,
                None => false,
            };
            if take {
                let cx: u8 = (i % 8) as u8;
                let cy: u8 = (i / 8) as u8;
                let mvs = self.get_moves((cx, cy), true);
                let mut j: usize = 0;
                while j < mvs.len()
                    invariant
                        forall|k: int|
                            0 <= k < result@.len() ==> {
                                let c = (#[trigger] result@[k]).0;
                                let m = result@[k].1;
                                &&& on_board(c.0 as int, c.1 as int)
                                &&& colour_is(b, c.0 as int, c.1 as int, col)
                                &&& m == chosen_move(
                                    b,
                                    c.0 as int,
                                    c.1 as int,
                                    piece_on(b, c.0 as int, c.1 as int),
                                    m.dst.0 as int,
                                    m.dst.1 as int,
                                )
                                &&& member_dest(
                                    b,
                                    c.0 as int,
                                    c.1 as int,
                                    piece_on(b, c.0 as int, c.1 as int),
                                    true,
                                    m.dst.0 as int,
                                    m.dst.1 as int,
                                )
                            },
                        forall|x: int, y: int, tx: int, ty: int|
                            (on_board(x, y) && sq(x, y) < i && colour_is(b, x, y, col)
                                && #[trigger] member_dest(b, x, y, piece_on(b, x, y), true, tx, ty))
                                ==> exists|k: int|
                                0 <= k < result@.len() && (#[trigger] result@[k]).0.0 == x
                                    && result@[k].0.1 == y && result@[k].1.dst.0 == tx
                                    && result@[k].1.dst.1 == ty,
                        forall|jj: int| #![trigger mvs@[jj]]
                            0 <= jj < j ==> exists|k: int|
                                0 <= k < result@.len() && (#[trigger] result@[k]).0 == (cx, cy)
                                    && result@[k].1 == mvs@[jj],
                        0 <= j <= mvs@.len(),
                    decreases mvs@.len() - j,
                {
                    let m = mvs[j];
                    let ghost prev = result@;
                    result.push(((cx, cy), m));
                    proof {
                        assert(result@[prev.len() as int].0 == (cx, cy) && result@[prev.len() as int].1
                            == m);
                        assert forall|jj: int| #![trigger mvs@[jj]] 0 <= jj < j + 1 implies exists|
                            k: int,
                        |
                            0 <= k < result@.len() && (#[trigger] result@[k]).0 == (cx, cy)
                                && result@[k].1 == mvs@[jj] by {
                            if jj < j {
                                let k0 = choose|k0: int|
                                    0 <= k0 < prev.len() && (#[trigger] prev[k0]).0 == (cx, cy)
                                        && prev[k0].1 == mvs@[jj];
                                assert(result@[k0] == prev[k0]);
                            }
                        }
                        assert forall|x: int, y: int, tx: int, ty: int|
                            (on_board(x, y) && sq(x, y) < i && colour_is(b, x, y, col)
                                && #[trigger] member_dest(
                                b,
                                x,
                                y,
                                piece_on(b, x, y),
                                true,
                                tx,
                                ty,
                            )) implies exists|k: int|
                            0 <= k < result@.len() && (#[trigger] result@[k]).0.0 == x
                                && result@[k].0.1 == y && result@[k].1.dst.0 == tx
                                && result@[k].1.dst.1 == ty by {
                            let k0 = choose|k0: int|
                                0 <= k0 < prev.len() && (#[trigger] prev[k0]).0.0 == x
                                    && prev[k0].0.1 == y && prev[k0].1.dst.0 == tx
                                    && prev[k0].1.dst.1 == ty;
                            assert(result@[k0] == prev[k0]);
                        }
                    }
                    j = j + 1;
                }
                proof {
                    assert forall|x: int, y: int, tx: int, ty: int|
                        (on_board(x, y) && sq(x, y) < i + 1 && colour_is(b, x, y, col)
                            && #[trigger] member_dest(
                            b,
                            x,
                            y,
                            piece_on(b, x, y),
                            true,
                            tx,
                            ty,
                        )) implies exists|k: int|
                        0 <= k < result@.len() && (#[trigger] result@[k]).0.0 == x && result@[k].0.1
                            == y && result@[k].1.dst.0 == tx && result@[k].1.dst.1 == ty by {
                        if sq(x, y) == i as int {
                            assert(x == i as int % 8 && y == i as int / 8);
                            assert(contains_dst(mvs@, tx, ty));
                            let jj = choose|jj: int|
                                0 <= jj < mvs@.len() && (#[trigger] mvs@[jj]).dst.0 == tx
                                    && mvs@[jj].dst.1 == ty;
                            let k = choose|k: int|
                                0 <= k < result@.len() && (#[trigger] result@[k]).0 == (cx, cy)
                                    && result@[k].1 == mvs@[jj];
                            assert(result@[k].0.0 == x && result@[k].0.1 == y);
                        }
                    }
                }
            } else {
                proof {
                    assert forall|x: int, y: int, tx: int, ty: int|
                        (on_board(x, y) && sq(x, y) < i + 1 && colour_is(b, x, y, col)
                            && #[trigger] member_dest(
                            b,
                            x,
                            y,
                            piece_on(b, x, y),
                            true,
                            tx,
                            ty,
                        )) implies exists|k: int|
                        0 <= k < result@.len() && (#[trigger] result@[k]).0.0 == x && result@[k].0.1
                            == y && result@[k].1.dst.0 == tx && result@[k].1.dst.1 == ty by {
                        if sq(x, y) == i as int {
                            assert(x == i as int % 8 && y == i as int / 8);
                            assert(!colour_is(b, x, y, col));
                        }
                    }
                }
            }
            i = i + 1;
        }
        result
    }

    /// Whether `col` is checkmated: in check, with no applicable legal move
    /// that leaves it out of check. Stalemate is not recognised (a known
    /// quirk, kept as an open question).
    #[verifier::loop_isolation(false)]
    pub fn is_checkmated(&self, col: ChessColour) -> (r: bool)
        requires
            wf_board(self.squares@),
            king_exists(self.squares@, col),
        ensures
            r == spec_checkmated(self.squares@, self.next_promotor, col),
    {
        let ghost b = self.squares@;
        if !self.is_in_check(col) {
            return false;
        }
        let all = self.get_all_moves_for_colour(col);
        let mut k: usize = 0;
        while k < all.len()
            invariant
                forall|kk: int|
                    0 <= kk < k ==> {
                        let c = (#[trigger] all@[kk]).0;
                        let m = all@[kk].1;
                        move_applicable(b, self.next_promotor, c, m) ==> in_check(
                            board_after_move(b, self.next_promotor, c, m),
                            col,
                        )
                    },
                0 <= k <= all@.len(),
            decreases all@.len() - k,
        {
            let (c, m) = all[k];
            if self.can_apply(c, m) {
                let mut test_state = self.duplicate();
                test_state.make_move(c, m);
                if !crate::gen::in_check_board(&test_state.squares, col) {
                    proof {
                        let cxi = c.0 as int;
                        let cyi = c.1 as int;
                        assert(member_dest(b, cxi, cyi, piece_on(b, cxi, cyi), true, m.dst.0 as int, m.dst.1 as int));
                        assert(m == chosen_move(
                            b,
                            cxi,
                            cyi,
                            piece_on(b, cxi, cyi),
                            m.dst.0 as int,
                            m.dst.1 as int,
                        ));
                        assert(c == (((cxi as u8)), ((cyi as u8))));
                        assert(!in_check(board_after_move(b, self.next_promotor, c, m), col));
                    }
                    return false;
                }
            }
            k = k + 1;
        }
        proof {
            assert forall|x: int, y: int, tx: int, ty: int|
                (on_board(x, y) && colour_is(b, x, y, col) && #[trigger] member_dest(
                    b,
                    x,
                    y,
                    piece_on(b, x, y),
                    true,
                    tx,
                    ty,
                ) && move_applicable(
                    b,
                    self.next_promotor,
                    (((x as u8)), ((y as u8))),
                    chosen_move(b, x, y, piece_on(b, x, y), tx, ty),
                )) implies in_check(
                board_after_move(
                    b,
                    self.next_promotor,
                    (((x as u8)), ((y as u8))),
                    chosen_move(b, x, y, piece_on(b, x, y), tx, ty),
                ),
                col,
            ) by {
                let kk = choose|kk: int|
                    0 <= kk < all@.len() && (#[trigger] all@[kk]).0.0 == x && all@[kk].0.1 == y
                        && all@[kk].1.dst.0 == tx && all@[kk].1.dst.1 == ty;
                assert(all@[kk].1 == chosen_move(b, x, y, piece_on(b, x, y), tx, ty));
                assert(all@[kk].0 == (((x as u8)), ((y as u8))));
            }
        }
        true
    }
}

} // verus!
