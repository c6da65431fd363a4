use schaak::chess_move::ChessMove;
use schaak::chess_move::MoveKind;
use schaak::piece::ChessColour;
use schaak::piece::Piece;
use schaak::piece::PieceKind;
use schaak::state::State;

fn empty_state() -> State {
    let mut st = State::new();
    for i in 0..64 {
        st.squares[i].content = None;
    }
    st
}

fn place(st: &mut State, x: u8, y: u8, kind: PieceKind, colour: ChessColour, has_moved: bool) {
    st.squares[(x + 8 * y) as usize].content = Some(Piece {
        kind,
        colour,
        has_moved,
        en_passanteable: false,
    });
}

fn at(st: &State, x: u8, y: u8) -> Option<Piece> {
    st.squares[(x + 8 * y) as usize].content
}

fn find_move(st: &State, from: (u8, u8), to: (u8, u8)) -> Option<ChessMove> {
    st.get_moves(from, true).into_iter().find(|m| m.dst == to)
}

#[test]
fn en_passant_capture_removes_the_passed_pawn() {
    let mut st = empty_state();
    place(&mut st, 4, 0, PieceKind::King, ChessColour::White, false);
    place(&mut st, 4, 7, PieceKind::King, ChessColour::Black, false);
    place(&mut st, 4, 4, PieceKind::Pawn, ChessColour::White, true);
    place(&mut st, 3, 6, PieceKind::Pawn, ChessColour::Black, false);

    // Black double-pushes d7 -> d5, landing beside the White pawn on e5.
    let push = find_move(&st, (3, 6), (3, 4)).expect("double push available");
    assert!(matches!(push.kind, MoveKind::DoublePush { .. }));
    st.make_move((3, 6), push);
    assert!(at(&st, 3, 4).unwrap().en_passanteable);
    assert!(at(&st, 3, 6).is_none());
    // turn passes to White; White pieces shed any stale eligibility
    st.clear_en_passant(ChessColour::White);

    // The White pawn may now capture en passant to d6.
    let ep = find_move(&st, (4, 4), (3, 5)).expect("en passant available");
    assert!(matches!(ep.kind, MoveKind::EnPassant { .. }));
    let history_before = st.history.len();
    st.make_move((4, 4), ep);
    assert_eq!(at(&st, 3, 5).unwrap().kind, PieceKind::Pawn);
    assert_eq!(at(&st, 3, 5).unwrap().colour, ChessColour::White);
    assert!(at(&st, 3, 4).is_none(), "the passed Black pawn is removed");
    assert!(at(&st, 4, 4).is_none());
    assert_eq!(st.history.len(), history_before + 1);
}

#[test]
fn en_passant_eligibility_lasts_one_ply() {
    let mut st = empty_state();
    place(&mut st, 4, 0, PieceKind::King, ChessColour::White, false);
    place(&mut st, 4, 7, PieceKind::King, ChessColour::Black, false);
    place(&mut st, 4, 4, PieceKind::Pawn, ChessColour::White, true);
    place(&mut st, 3, 6, PieceKind::Pawn, ChessColour::Black, false);
    place(&mut st, 0, 1, PieceKind::Pawn, ChessColour::White, true);

    let push = find_move(&st, (3, 6), (3, 4)).expect("double push available");
    st.make_move((3, 6), push);
    st.clear_en_passant(ChessColour::White);
    assert!(find_move(&st, (4, 4), (3, 5)).is_some(), "capture offered immediately");

    // White plays something else; Black regains the move and the flag is
    // cleared from Black's pawn.
    let quiet = find_move(&st, (0, 1), (0, 2)).expect("quiet move available");
    st.make_move((0, 1), quiet);
    st.clear_en_passant(ChessColour::Black);
    assert!(!at(&st, 3, 4).unwrap().en_passanteable);
    assert!(find_move(&st, (4, 4), (3, 5)).is_none(), "the chance has lapsed");
}

#[test]
fn short_castle_moves_both_pieces_and_logs_two_records() {
    let mut st = State::new();
    st.squares[5].content = None;  // f1
    st.squares[6].content = None;  // g1
    let castle = find_move(&st, (4, 0), (6, 0)).expect("short castle available");
    assert!(matches!(castle.kind, MoveKind::Castle { long: false, colour: ChessColour::White }));
    let history_before = st.history.len();
    st.make_move((4, 0), castle);
    assert_eq!(at(&st, 6, 0).unwrap().kind, PieceKind::King);
    assert!(at(&st, 6, 0).unwrap().has_moved);
    assert_eq!(at(&st, 5, 0).unwrap().kind, PieceKind::Rook);
    assert!(at(&st, 5, 0).unwrap().has_moved);
    assert!(at(&st, 4, 0).is_none());
    assert!(at(&st, 7, 0).is_none());
    assert_eq!(st.history.len(), history_before + 2);
    assert_eq!(st.history[history_before].text(), "h1f1");
    assert_eq!(st.history[history_before + 1].text(), "e1g1");
}

#[test]
fn long_castle_moves_both_pieces() {
    let mut st = State::new();
    st.squares[1].content = None;  // b1
    st.squares[2].content = None;  // c1
    st.squares[3].content = None;  // d1
    let castle = find_move(&st, (4, 0), (2, 0)).expect("long castle available");
    assert!(matches!(castle.kind, MoveKind::Castle { long: true, colour: ChessColour::White }));
    st.make_move((4, 0), castle);
    assert_eq!(at(&st, 2, 0).unwrap().kind, PieceKind::King);
    assert_eq!(at(&st, 3, 0).unwrap().kind, PieceKind::Rook);
    assert!(at(&st, 0, 0).is_none());
    assert!(at(&st, 4, 0).is_none());
}

#[test]
fn castling_needs_unmoved_pieces_and_empty_path() {
    // path not empty: nothing offered
    let st = State::new();
    assert!(find_move(&st, (4, 0), (6, 0)).is_none());
    assert!(find_move(&st, (4, 0), (2, 0)).is_none());

    // a king that has moved gets no castle
    let mut st2 = State::new();
    st2.squares[5].content = None;
    st2.squares[6].content = None;
    let idx = (4 + 8 * 0) as usize;
    let king = st2.squares[idx].content.unwrap();
    st2.squares[idx].content = Some(Piece { has_moved: true, ..king });
    assert!(find_move(&st2, (4, 0), (6, 0)).is_none());

    // a rook that has moved gives no castle either
    let mut st3 = State::new();
    st3.squares[5].content = None;
    st3.squares[6].content = None;
    let rook = st3.squares[7].content.unwrap();
    st3.squares[7].content = Some(Piece { has_moved: true, ..rook });
    assert!(find_move(&st3, (4, 0), (6, 0)).is_none());
}

#[test]
fn capture_promotion_installs_the_selected_kind() {
    let mut st = empty_state();
    place(&mut st, 4, 0, PieceKind::King, ChessColour::White, false);
    place(&mut st, 4, 7, PieceKind::King, ChessColour::Black, false);
    place(&mut st, 1, 6, PieceKind::Pawn, ChessColour::White, true);
    place(&mut st, 0, 7, PieceKind::Rook, ChessColour::Black, true);
    st.next_promotor = PieceKind::Knight;

    let promo = find_move(&st, (1, 6), (0, 7)).expect("capture promotion available");
    assert!(matches!(promo.kind, MoveKind::Promotion { .. }));
    st.make_move((1, 6), promo);
    let p = at(&st, 0, 7).unwrap();
    assert_eq!(p.kind, PieceKind::Knight);
    assert_eq!(p.colour, ChessColour::White);
    assert!(p.has_moved);
    assert!(at(&st, 1, 6).is_none());
}

#[test]
fn pawn_advancing_onto_the_far_rank_promotes() {
    let mut st = empty_state();
    place(&mut st, 4, 0, PieceKind::King, ChessColour::White, false);
    place(&mut st, 4, 7, PieceKind::King, ChessColour::Black, false);
    place(&mut st, 1, 6, PieceKind::Pawn, ChessColour::White, true);
    st.next_promotor = PieceKind::Queen;

    let promo = find_move(&st, (1, 6), (1, 7)).expect("forward advance to the far rank");
    assert!(matches!(promo.kind, MoveKind::Promotion { .. }));
    st.make_move((1, 6), promo);
    let q = at(&st, 1, 7).unwrap();
    assert_eq!(q.kind, PieceKind::Queen);
    assert_eq!(q.colour, ChessColour::White);
    assert!(at(&st, 1, 6).is_none());

    // the same for Black, advancing downwards
    let mut st2 = empty_state();
    place(&mut st2, 4, 0, PieceKind::King, ChessColour::White, false);
    place(&mut st2, 4, 7, PieceKind::King, ChessColour::Black, false);
    place(&mut st2, 6, 1, PieceKind::Pawn, ChessColour::Black, true);
    let promo2 = find_move(&st2, (6, 1), (6, 0)).expect("forward advance to the far rank");
    assert!(matches!(promo2.kind, MoveKind::Promotion { .. }));
}

#[test]
fn castling_needs_a_rook_of_the_kings_own_colour() {
    let mut st = empty_state();
    place(&mut st, 4, 0, PieceKind::King, ChessColour::White, false);
    place(&mut st, 4, 7, PieceKind::King, ChessColour::Black, false);
    place(&mut st, 7, 0, PieceKind::Rook, ChessColour::Black, false);
    place(&mut st, 0, 0, PieceKind::Rook, ChessColour::Black, false);
    assert!(find_move(&st, (4, 0), (6, 0)).is_none(), "no castle with an enemy rook");
    assert!(find_move(&st, (4, 0), (2, 0)).is_none());

    let mut st2 = empty_state();
    place(&mut st2, 4, 0, PieceKind::King, ChessColour::White, false);
    place(&mut st2, 4, 7, PieceKind::King, ChessColour::Black, false);
    place(&mut st2, 7, 0, PieceKind::Rook, ChessColour::White, false);
    assert!(find_move(&st2, (4, 0), (6, 0)).is_some(), "own rook castles");
}

#[test]
fn legality_filter_covers_en_passant_captures() {
    // a White pawn pinned on the e-file may not capture en passant off it
    let mut st = empty_state();
    place(&mut st, 4, 0, PieceKind::King, ChessColour::White, false);
    place(&mut st, 7, 7, PieceKind::King, ChessColour::Black, false);
    place(&mut st, 4, 4, PieceKind::Pawn, ChessColour::White, true);
    place(&mut st, 4, 7, PieceKind::Rook, ChessColour::Black, true);
    place(&mut st, 3, 6, PieceKind::Pawn, ChessColour::Black, false);

    let push = find_move(&st, (3, 6), (3, 4)).expect("double push available");
    st.make_move((3, 6), push);
    assert!(at(&st, 3, 4).unwrap().en_passanteable);

    let unfiltered: Vec<(u8, u8)> = st.get_moves((4, 4), false).iter().map(|m| m.dst).collect();
    assert!(unfiltered.contains(&(3, 5)), "the capture is generated");
    let filtered: Vec<(u8, u8)> = st.get_moves((4, 4), true).iter().map(|m| m.dst).collect();
    assert!(!filtered.contains(&(3, 5)), "but it would expose the king");
}

#[test]
fn own_pieces_never_give_check() {
    // a king standing on its own pawn's en passant diagonal is not in check
    let mut st = empty_state();
    place(&mut st, 3, 5, PieceKind::King, ChessColour::White, true);
    place(&mut st, 4, 4, PieceKind::Pawn, ChessColour::White, true);
    place(&mut st, 7, 7, PieceKind::King, ChessColour::Black, false);
    st.squares[(3 + 8 * 4) as usize].content = Some(Piece {
        kind: PieceKind::Pawn,
        colour: ChessColour::Black,
        has_moved: true,
        en_passanteable: true,
    });
    assert!(!st.is_in_check(ChessColour::White));
}

#[test]
fn legality_filter_keeps_a_pinned_rook_on_its_file() {
    let mut st = empty_state();
    place(&mut st, 4, 0, PieceKind::King, ChessColour::White, false);
    place(&mut st, 4, 1, PieceKind::Rook, ChessColour::White, true);
    place(&mut st, 4, 4, PieceKind::Rook, ChessColour::Black, true);
    place(&mut st, 7, 7, PieceKind::King, ChessColour::Black, false);

    let unfiltered: Vec<(u8, u8)> = st.get_moves((4, 1), false).iter().map(|m| m.dst).collect();
    assert!(unfiltered.contains(&(0, 1)), "sideways move is pseudo-legal");

    let filtered: Vec<(u8, u8)> = st.get_moves((4, 1), true).iter().map(|m| m.dst).collect();
    assert!(!filtered.contains(&(0, 1)), "sideways move would expose the king");
    assert!(!filtered.contains(&(5, 1)));
    assert!(filtered.contains(&(4, 2)));
    assert!(filtered.contains(&(4, 3)));
    assert!(filtered.contains(&(4, 4)), "capturing the pinning rook stays legal");
}

#[test]
fn check_and_checkmate_are_recognised() {
    let mut st = empty_state();
    place(&mut st, 0, 0, PieceKind::King, ChessColour::White, true);
    place(&mut st, 0, 1, PieceKind::Pawn, ChessColour::White, true);
    place(&mut st, 1, 1, PieceKind::Pawn, ChessColour::White, true);
    place(&mut st, 3, 0, PieceKind::Rook, ChessColour::Black, true);
    place(&mut st, 4, 7, PieceKind::King, ChessColour::Black, false);

    assert!(st.is_in_check(ChessColour::White));
    assert!(!st.is_in_check(ChessColour::Black));
    assert!(st.is_checkmated(ChessColour::White), "back-rank mate");

    // with a defender that can capture the rook it is no longer mate
    let mut st2 = st.duplicate();
    place(&mut st2, 3, 7, PieceKind::Rook, ChessColour::White, true);
    assert!(st2.is_in_check(ChessColour::White));
    assert!(!st2.is_checkmated(ChessColour::White));
}

#[test]
fn attempt_move_applies_only_valid_targets() {
    let mut st = State::new();
    st.selected_square = Some((4, 1));
    // illegal target: nothing happens, selection dropped
    assert!(!st.attempt_move((4, 5)));
    assert!(st.selected_square.is_none());
    assert!(at(&st, 4, 1).is_some());

    // moving onto a friendly piece is refused
    st.selected_square = Some((3, 0));
    assert!(!st.attempt_move((3, 1)));

    // a pawn double push goes through and is logged
    st.selected_square = Some((4, 1));
    assert!(st.attempt_move((4, 3)));
    assert!(at(&st, 4, 1).is_none());
    let moved = at(&st, 4, 3).unwrap();
    assert_eq!(moved.kind, PieceKind::Pawn);
    assert!(moved.has_moved);
    assert!(moved.en_passanteable);
    assert_eq!(st.history.len(), 1);
    assert_eq!(st.history[0].text(), "e2e4");
}

#[test]
fn replaying_a_recorded_sequence_matches_stepwise_application() {
    let st = State::new();
    let mut stepwise = st.duplicate();
    let mut recorded: Vec<((u8, u8), ChessMove)> = Vec::new();
    let plies: [((u8, u8), (u8, u8)); 4] = [
        ((4, 1), (4, 3)),
        ((1, 7), (2, 5)),
        ((6, 0), (5, 2)),
        ((4, 6), (4, 4)),
    ];
    for (from, to) in plies {
        let m = find_move(&stepwise, from, to).expect("move available");
        stepwise.make_move(from, m);
        recorded.push((from, m));
    }
    let mut replayed = st.duplicate();
    schaak::laws::replay(&mut replayed, &recorded);
    assert!(stepwise.squares == replayed.squares);
    assert!(stepwise.history == replayed.history);
}

#[test]
fn duplicated_states_replay_identically() {
    let st = State::new();
    let mut a = st.duplicate();
    let mut b = st.duplicate();
    let plies: [((u8, u8), (u8, u8)); 4] = [
        ((4, 1), (4, 3)),
        ((4, 6), (4, 4)),
        ((6, 0), (5, 2)),
        ((1, 7), (2, 5)),
    ];
    for (from, to) in plies {
        let m = find_move(&a, from, to).expect("move available");
        a.make_move(from, m);
        b.make_move(from, m);
        a.clear_en_passant(if at(&a, to.0, to.1).unwrap().colour == ChessColour::White {
            ChessColour::Black
        } else {
            ChessColour::White
        });
        b.clear_en_passant(if at(&b, to.0, to.1).unwrap().colour == ChessColour::White {
            ChessColour::Black
        } else {
            ChessColour::White
        });
    }
    assert!(a.squares == b.squares, "boards agree square for square");
    assert!(a.history == b.history, "histories agree record for record");
    assert!(a == b);
}
