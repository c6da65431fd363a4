//! Library-wide laws, stated and proved once over the spec-level model.

use vstd::prelude::*;

use crate::board::in_board;
use crate::chess_move::ChessMove;
use crate::chess_move::PerformedMove;
use crate::gen::base_dest;
use crate::gen::castle_dest;
use crate::gen::ep_dest;
use crate::piece::Piece;
use crate::piece::PieceKind;
use crate::square::Square;
use crate::state::board_after_move;
use crate::state::exposes;
use crate::state::history_after_move;
use crate::state::member_dest;

verus! {

/// Every destination the generator reports — for any piece, with or without
/// the legality filter — lies on the 8×8 board and differs from the piece's
/// own square.
pub proof fn lemma_moves_on_board(
    b: Seq<Square>,
    cx: int,
    cy: int,
    p: Piece,
    test: bool,
    tx: int,
    ty: int,
)
    requires
        in_board(cx, cy),
        member_dest(b, cx, cy, p, test, tx, ty),
    ensures
        in_board(tx, ty),
        !(tx == cx && ty == cy),
{
    crate::gen::lemma_dest_on_board(b, cx, cy, p, tx, ty);
}

/// The legality filter: a base or en passant destination whose plain
/// relocation would leave the mover's own side in check is absent from the
/// filtered move set (unless it is also a castling candidate, which bypasses
/// the filter — a deliberate open question, not silently patched).
pub proof fn lemma_filter_excludes_exposing(
    b: Seq<Square>,
    cx: int,
    cy: int,
    p: Piece,
    tx: int,
    ty: int,
)
    requires
        base_dest(b, cx, cy, p, tx, ty) || ep_dest(b, cx, cy, p, tx, ty),
        exposes(b, cx, cy, p, tx, ty),
        !castle_dest(b, cx, cy, p, tx, ty),
    ensures
        !member_dest(b, cx, cy, p, true, tx, ty),
{
}

/// The board and history after applying a whole sequence of moves, each
/// given with the square it is played from, in order.
pub open spec fn apply_sequence(
    b: Seq<Square>,
    h: Seq<PerformedMove>,
    promotor: PieceKind,
    moves: Seq<((u8, u8), ChessMove)>,
) -> (Seq<Square>, Seq<PerformedMove>)
    decreases moves.len(),
{
    if moves.len() == 0 {
        (b, h)
    } else {
        let sm = moves[0];
        apply_sequence(
            board_after_move(b, promotor, sm.0, sm.1),
            history_after_move(h, b, sm.0, sm.1),
            promotor,
            moves.drop_first(),
        )
    }
}

/// Whether each move of the sequence is applicable in turn, on the board as
/// the moves before it leave it.
pub open spec fn seq_applicable(
    b: Seq<Square>,
    promotor: PieceKind,
    moves: Seq<((u8, u8), ChessMove)>,
) -> bool
    decreases moves.len(),
{
    moves.len() == 0 || {
        let sm = moves[0];
        crate::state::move_applicable(b, promotor, sm.0, sm.1) && seq_applicable(
            board_after_move(b, promotor, sm.0, sm.1),
            promotor,
            moves.drop_first(),
        )
    }
}

/// Applies a whole move sequence in order. The outcome is exactly
/// `apply_sequence` of the starting board and history — a function of the
/// start state and the moves alone — so two duplicates of one state, given
/// the same sequence, end bit for bit alike.
pub fn replay(state: &mut crate::state::State, moves: &Vec<((u8, u8), ChessMove)>)
    requires
        crate::board::wf_board(old(state).squares@),
        seq_applicable(old(state).squares@, old(state).next_promotor, moves@),
    ensures
        crate::board::wf_board(final(state).squares@),
        (final(state).squares@, final(state).history@) == apply_sequence(
            old(state).squares@,
            old(state).history@,
            old(state).next_promotor,
            moves@,
        ),
        final(state).turn == old(state).turn,
        final(state).selected_square == old(state).selected_square,
        final(state).mouse_pressed_previous == old(state).mouse_pressed_previous,
        final(state).game_running == old(state).game_running,
        final(state).next_promotor == old(state).next_promotor,
{
    let ghost b0 = old(state).squares@;
    let ghost h0 = old(state).history@;
    let ghost promotor = old(state).next_promotor;
    proof {
        assert(moves@.skip(0) =~= moves@);
    }
    let mut k: usize = 0;
    while k < moves.len()
        invariant
            0 <= k <= moves@.len(),
            crate::board::wf_board(state.squares@),
            state.next_promotor == promotor,
            state.turn == old(state).turn,
            state.selected_square == old(state).selected_square,
            state.mouse_pressed_previous == old(state).mouse_pressed_previous,
            state.game_running == old(state).game_running,
            seq_applicable(state.squares@, promotor, moves@.skip(k as int)),
            apply_sequence(b0, h0, promotor, moves@) == apply_sequence(
                state.squares@,
                state.history@,
                promotor,
                moves@.skip(k as int),
            ),
        decreases moves@.len() - k,
    {
        let (c, m) = moves[k];
        let ghost bcur = state.squares@;
        let ghost hcur = state.history@;
        let ghost rest = moves@.skip(k as int);
        proof {
            assert(rest[0] == moves@[k as int]);
            assert(crate::state::move_applicable(bcur, promotor, c, m));
        }
        state.make_move(c, m);
        proof {
            assert(state.squares@ == board_after_move(bcur, promotor, c, m));
            assert(state.history@ == history_after_move(hcur, bcur, c, m));
            assert(rest.drop_first() =~= moves@.skip(k as int + 1));
        }
        k = k + 1;
    }
    proof {
        assert(moves@.skip(moves@.len() as int).len() == 0);
    }
}

/// Replay is deterministic: two states with equal boards and histories,
/// given the same move sequence and promotion selection, end with equal
/// boards and histories. Together with `State::make_move`'s contract —
/// which equates each step's outcome with `board_after_move` and
/// `history_after_move` of the previous state alone — this says that
/// duplicating a state and applying one sequence to both copies yields
/// identical results.
pub proof fn lemma_replay_deterministic(
    b1: Seq<Square>,
    h1: Seq<PerformedMove>,
    b2: Seq<Square>,
    h2: Seq<PerformedMove>,
    promotor: PieceKind,
    moves: Seq<((u8, u8), ChessMove)>,
)
    requires
        b1 == b2,
        h1 == h2,
    ensures
        apply_sequence(b1, h1, promotor, moves) == apply_sequence(b2, h2, promotor, moves),
{
}

} // verus!
