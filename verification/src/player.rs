//! The player abstraction: a worker that mirrors the game state, applies
//! moves as they arrive, and proposes moves of its own. The surrounding
//! loop (channels, scheduling) is the caller's business; a player only
//! decides, on each tick, what to apply and what to offer.

use vstd::prelude::*;

use crate::board::colour_is;
use crate::board::in_board as on_board;
use crate::board::wf_board;
use crate::chess_move::ChessMove;
use crate::gen::piece_on;
use crate::piece::ChessColour;
use crate::rng::new_small_rng;
use crate::rng::rng_below;
use crate::state::chosen_move;
use crate::state::member_dest;
use crate::state::move_applicable;
use crate::state::State;

verus! {

/// A move together with the square it is played from.
#[derive(Clone, Copy, Debug)]
pub struct MoveInfo {
    pub coord: (u8, u8),
    pub move_data: ChessMove,
}

/// A player holds its own mirror of the game and exchanges moves with its
/// caller. `tick` drives one round: offer the pending move if one is ready,
/// then either apply an incoming move or start pondering a new one —
/// exactly one of the two, and at most one externally-originated move per
/// tick.
pub trait Player: Sized {
    /// The player's internal consistency; every operation preserves it.
    spec fn inv(&self) -> bool;

    /// The move this player has ready to offer, if any.
    spec fn pending(&self) -> Option<MoveInfo>;

    /// What `apply_move` does: how the player after relates to the player
    /// before and the applied move.
    spec fn applied_from(pre: Self, mi: MoveInfo, post: Self) -> bool;

    /// What `ponder_new_move` does: how the player after relates to the
    /// player before.
    spec fn pondered_from(pre: Self, post: Self) -> bool;

    /// Applies a move (the player's own moves included: the caller echoes
    /// them back) to the internal mirror. The pending offer is untouched.
    fn apply_move(&mut self, mi: MoveInfo)
        requires
            old(self).inv(),
        ensures
            final(self).inv(),
            final(self).pending() == old(self).pending(),
            Self::applied_from(*old(self), mi, *final(self)),
    ;

    /// The pending move, if one is ready.
    fn return_new_move(&self) -> (r: Option<MoveInfo>)
        requires
            self.inv(),
        ensures
            r == self.pending(),
    ;

    /// Drops the pending move once the caller has taken it.
    fn clear_pending(&mut self)
        requires
            old(self).inv(),
        ensures
            final(self).inv(),
            final(self).pending() is None,
    ;

    /// Starts working out a new move to offer.
    fn ponder_new_move(&mut self)
        requires
            old(self).inv(),
        ensures
            final(self).inv(),
            Self::pondered_from(*old(self), *final(self)),
    ;

    /// A hook run at the start of every tick; it may work internally but
    /// must not touch the pending offer.
    fn specific_tick(&mut self)
        requires
            old(self).inv(),
        ensures
            final(self).inv(),
            final(self).pending() == old(self).pending(),
    {
    }

    /// One round: run the hook; hand back the pending move, if any, for the
    /// caller to send, clearing it once taken; then apply the incoming move
    /// if one arrived, and ponder a new one otherwise.
    fn tick(&mut self, incoming: Option<MoveInfo>) -> (outgoing: Option<MoveInfo>)
        requires
            old(self).inv(),
        ensures
            final(self).inv(),
            outgoing == old(self).pending(),
            incoming is Some ==> final(self).pending() is None,
            incoming matches Some(mi) ==> exists|mid: Self|
                mid.inv() && mid.pending() is None && #[trigger] Self::applied_from(
                    mid,
                    mi,
                    *final(self),
                ),
            incoming is None ==> exists|mid: Self|
                mid.inv() && mid.pending() is None && #[trigger] Self::pondered_from(
                    mid,
                    *final(self),
                ),
    {
        self.specific_tick();
        let outgoing = self.return_new_move();
        if outgoing.is_some() {
            self.clear_pending();
        }
        let ghost mid = *self;
        match incoming {
            Some(new_move_to_be_applied) => {
                self.apply_move(new_move_to_be_applied);
                proof {
                    assert(Self::applied_from(mid, new_move_to_be_applied, *self));
                }
            },
            None => {
                self.ponder_new_move();
                proof {
                    assert(Self::pondered_from(mid, *self));
                }
            },
        }
        outgoing
    }
}

/// A player that picks uniformly at random among the legal moves of its
/// colour.
pub struct RandomPlayer {
    pub internal_state: State,
    pub move_info: Option<MoveInfo>,
    pub colour: ChessColour,
}

/// Whether some legal move is available to `colour` on board `b`.
pub open spec fn has_legal_move(b: Seq<crate::square::Square>, colour: ChessColour) -> bool {
    exists|x: int, y: int, tx: int, ty: int|
        on_board(x, y) && colour_is(b, x, y, colour) && #[trigger] member_dest(
            b,
            x,
            y,
            piece_on(b, x, y),
            true,
            tx,
            ty,
        )
}

/// Whether `mi` is one of the legality-filtered moves of `colour` on `b`,
/// carrying the effect the generator attaches to its destination.
pub open spec fn legal_move_info(
    b: Seq<crate::square::Square>,
    colour: ChessColour,
    mi: MoveInfo,
) -> bool {
    let p = piece_on(b, mi.coord.0 as int, mi.coord.1 as int);
    &&& on_board(mi.coord.0 as int, mi.coord.1 as int)
    &&& colour_is(b, mi.coord.0 as int, mi.coord.1 as int, colour)
    &&& member_dest(
        b,
        mi.coord.0 as int,
        mi.coord.1 as int,
        p,
        true,
        mi.move_data.dst.0 as int,
        mi.move_data.dst.1 as int,
    )
    &&& mi.move_data == chosen_move(
        b,
        mi.coord.0 as int,
        mi.coord.1 as int,
        p,
        mi.move_data.dst.0 as int,
        mi.move_data.dst.1 as int,
    )
}

impl RandomPlayer {
    /// A fresh player mirroring `state_to_clone` and playing `colour`.
    pub fn new(state_to_clone: &State, colour: ChessColour) -> (r: Self)
        requires
            wf_board(state_to_clone.squares@),
        ensures
            r.inv(),
            r.internal_state.squares@ =~= state_to_clone.squares@,
            r.colour == colour,
            r.move_info is None,
    {
        RandomPlayer {
            internal_state: state_to_clone.duplicate(),
            move_info: None,
            colour,
        }
    }
}

impl Player for RandomPlayer {
    open spec fn inv(&self) -> bool {
        wf_board(self.internal_state.squares@)
    }

    open spec fn pending(&self) -> Option<MoveInfo> {
        self.move_info
    }

    /// Applying a move leaves the colour and the offer alone; the mirror
    /// changes exactly as `State::make_move` describes when the move is
    /// applicable, and not at all otherwise.
    open spec fn applied_from(pre: Self, mi: MoveInfo, post: Self) -> bool {
        let b = pre.internal_state.squares@;
        let promotor = pre.internal_state.next_promotor;
        &&& post.colour == pre.colour
        &&& post.move_info == pre.move_info
        &&& if move_applicable(b, promotor, mi.coord, mi.move_data) {
            &&& post.internal_state.squares@ == crate::state::board_after_move(
                b,
                promotor,
                mi.coord,
                mi.move_data,
            )
            &&& post.internal_state.history@ == crate::state::history_after_move(
                pre.internal_state.history@,
                b,
                mi.coord,
                mi.move_data,
            )
            &&& post.internal_state.turn == pre.internal_state.turn
            &&& post.internal_state.selected_square == pre.internal_state.selected_square
            &&& post.internal_state.mouse_pressed_previous
                == pre.internal_state.mouse_pressed_previous
            &&& post.internal_state.game_running == pre.internal_state.game_running
            &&& post.internal_state.next_promotor == pre.internal_state.next_promotor
        } else {
            post.internal_state == pre.internal_state
        }
    }

    /// Pondering leaves the mirror and colour alone; when some legal move of
    /// this player's colour exists, a legal move is picked and offered, and
    /// only when none exists is the offer left as it was.
    open spec fn pondered_from(pre: Self, post: Self) -> bool {
        let b = pre.internal_state.squares@;
        &&& post.internal_state == pre.internal_state
        &&& post.colour == pre.colour
        &&& if has_legal_move(b, pre.colour) {
            post.move_info matches Some(mi) && legal_move_info(b, pre.colour, mi)
        } else {
            post.move_info == pre.move_info
        }
    }

    /// A move that is not applicable to the mirrored board (a corrupted
    /// message) is ignored rather than applied blindly.
    fn apply_move(&mut self, mi: MoveInfo) {
        if self.internal_state.can_apply(mi.coord, mi.move_data) {
            self.internal_state.make_move(mi.coord, mi.move_data);
        }
    }

    fn return_new_move(&self) -> (r: Option<MoveInfo>) {
        proof {
            assert(self.pending() == self.move_info);
        }
        self.move_info
    }

    fn clear_pending(&mut self) {
        self.move_info = None;
    }

    /// Draws one of the legal moves of this player's colour at random.
    fn ponder_new_move(&mut self) {
        let ghost b = self.internal_state.squares@;
        let currently_available_moves = self.internal_state.get_all_moves_for_colour(self.colour);
        if currently_available_moves.len() > 0 {
            let mut rng = new_small_rng();
            let idx = rng_below(&mut rng, currently_available_moves.len());
            let selected_move = currently_available_moves[idx];
            proof {
                assert(member_dest(
                    b,
                    selected_move.0.0 as int,
                    selected_move.0.1 as int,
                    piece_on(b, selected_move.0.0 as int, selected_move.0.1 as int),
                    true,
                    selected_move.1.dst.0 as int,
                    selected_move.1.dst.1 as int,
                ));
            }
            self.move_info = Some(
                MoveInfo { coord: selected_move.0, move_data: selected_move.1 },
            );
        } else {
            proof {
                if has_legal_move(b, self.colour) {
                    let (x, y, tx, ty) = choose|x: int, y: int, tx: int, ty: int|
                        on_board(x, y) && colour_is(b, x, y, self.colour) && #[trigger] member_dest(
                            b,
                            x,
                            y,
                            piece_on(b, x, y),
                            true,
                            tx,
                            ty,
                        );
                    assert(exists|k: int|
                        0 <= k < currently_available_moves@.len() && (
                        #[trigger] currently_available_moves@[k]).0.0 == x
                            && currently_available_moves@[k].0.1 == y
                            && currently_available_moves@[k].1.dst.0 == tx
                            && currently_available_moves@[k].1.dst.1 == ty);
                    assert(false);
                }
            }
        }
    }
}

} // verus!
