use schaak::chess_move::PerformedMove;
use schaak::piece::ChessColour;
use schaak::piece::Piece;
use schaak::piece::PieceKind;
use schaak::square::coord_string;
use schaak::state::State;

fn empty_state() -> State {
    let mut st = State::new();
    for i in 0..64 {
        st.squares[i].content = None;
    }
    st
}

fn place(st: &mut State, x: u8, y: u8, kind: PieceKind, colour: ChessColour, has_moved: bool) {
    st.squares[(x + 8 * y) as usize].content = Some(Piece {
        kind,
        colour,
        has_moved,
        en_passanteable: false,
    });
}

fn dests(st: &State, x: u8, y: u8, filter: bool) -> Vec<(u8, u8)> {
    st.get_moves((x, y), filter).iter().map(|m| m.dst).collect()
}

#[test]
fn rook_on_empty_board_at_a1_has_14_destinations() {
    let mut st = empty_state();
    place(&mut st, 0, 0, PieceKind::Rook, ChessColour::White, false);
    let ds = dests(&st, 0, 0, false);
    assert_eq!(ds.len(), 14);
    for y in 1..8u8 {
        assert!(ds.contains(&(0, y)));
    }
    for x in 1..8u8 {
        assert!(ds.contains(&(x, 0)));
    }
}

#[test]
fn knight_on_empty_board_at_d4_has_8_destinations() {
    let mut st = empty_state();
    place(&mut st, 3, 3, PieceKind::Knight, ChessColour::White, false);
    let ds = dests(&st, 3, 3, false);
    assert_eq!(ds.len(), 8);
    for d in [(4, 5), (2, 5), (5, 4), (1, 4), (5, 2), (1, 2), (4, 1), (2, 1)] {
        assert!(ds.contains(&d));
    }
}

#[test]
fn unmoved_pawn_advances_one_or_two_moved_pawn_only_one() {
    let mut st = empty_state();
    place(&mut st, 4, 1, PieceKind::Pawn, ChessColour::White, false);
    let ds = dests(&st, 4, 1, false);
    assert_eq!(ds.len(), 2);
    assert!(ds.contains(&(4, 2)));
    assert!(ds.contains(&(4, 3)));

    let mut st2 = empty_state();
    place(&mut st2, 4, 1, PieceKind::Pawn, ChessColour::White, true);
    let ds2 = dests(&st2, 4, 1, false);
    assert_eq!(ds2, vec![(4, 2)]);
}

#[test]
fn blocked_pawn_cannot_advance_at_all() {
    let mut st = empty_state();
    place(&mut st, 4, 1, PieceKind::Pawn, ChessColour::White, false);
    place(&mut st, 4, 2, PieceKind::Knight, ChessColour::Black, false);
    let ds = dests(&st, 4, 1, false);
    // a blocker directly ahead stops both the single and the double advance
    assert!(ds.is_empty());

    // a blocker on the double-advance square alone stops only that square
    let mut st2 = empty_state();
    place(&mut st2, 4, 1, PieceKind::Pawn, ChessColour::White, false);
    place(&mut st2, 4, 3, PieceKind::Knight, ChessColour::Black, false);
    let ds2 = dests(&st2, 4, 1, false);
    assert_eq!(ds2, vec![(4, 2)]);
}

#[test]
fn pawn_captures_diagonally() {
    let mut st = empty_state();
    place(&mut st, 4, 3, PieceKind::Pawn, ChessColour::White, true);
    place(&mut st, 3, 4, PieceKind::Pawn, ChessColour::Black, true);
    place(&mut st, 5, 4, PieceKind::Rook, ChessColour::Black, true);
    place(&mut st, 4, 4, PieceKind::Rook, ChessColour::Black, true);
    let ds = dests(&st, 4, 3, false);
    assert_eq!(ds.len(), 2);
    assert!(ds.contains(&(3, 4)));
    assert!(ds.contains(&(5, 4)));
}

#[test]
fn black_pawn_advances_downwards() {
    let mut st = empty_state();
    place(&mut st, 2, 6, PieceKind::Pawn, ChessColour::Black, false);
    let ds = dests(&st, 2, 6, false);
    assert_eq!(ds.len(), 2);
    assert!(ds.contains(&(2, 5)));
    assert!(ds.contains(&(2, 4)));
}

#[test]
fn sliding_piece_stops_at_friend_and_captures_enemy() {
    let mut st = empty_state();
    place(&mut st, 0, 0, PieceKind::Rook, ChessColour::White, false);
    place(&mut st, 0, 2, PieceKind::Pawn, ChessColour::White, false);
    place(&mut st, 2, 0, PieceKind::Pawn, ChessColour::Black, false);
    let ds = dests(&st, 0, 0, false);
    assert!(ds.contains(&(0, 1)));
    assert!(!ds.contains(&(0, 2)));
    assert!(!ds.contains(&(0, 3)));
    assert!(ds.contains(&(1, 0)));
    assert!(ds.contains(&(2, 0)));
    assert!(!ds.contains(&(3, 0)));
    assert_eq!(ds.len(), 3);
}

#[test]
fn generated_destinations_stay_on_board_and_off_own_square() {
    let st = State::new();
    for x in 0..8u8 {
        for y in 0..8u8 {
            if st.squares[(x + 8 * y) as usize].content.is_some() {
                for m in st.get_moves((x, y), false) {
                    assert!(m.dst.0 < 8 && m.dst.1 < 8);
                    assert!(m.dst != (x, y));
                }
            }
        }
    }
}

#[test]
fn starting_position_layout() {
    let st = State::new();
    assert_eq!(st.squares.len(), 64);
    assert_eq!(st.turn, ChessColour::White);
    assert!(st.history.is_empty());
    assert_eq!(st.next_promotor, PieceKind::Queen);
    assert!(st.selected_square.is_none());
    assert!(st.game_running);
    let at = |x: u8, y: u8| st.squares[(x + 8 * y) as usize].content;
    assert_eq!(at(4, 0).unwrap().kind, PieceKind::King);
    assert_eq!(at(4, 0).unwrap().colour, ChessColour::White);
    assert_eq!(at(3, 7).unwrap().kind, PieceKind::Queen);
    assert_eq!(at(3, 7).unwrap().colour, ChessColour::Black);
    for x in 0..8u8 {
        assert_eq!(at(x, 1).unwrap().kind, PieceKind::Pawn);
        assert_eq!(at(x, 1).unwrap().colour, ChessColour::White);
        assert_eq!(at(x, 6).unwrap().kind, PieceKind::Pawn);
        assert_eq!(at(x, 6).unwrap().colour, ChessColour::Black);
        for y in 2..6u8 {
            assert!(at(x, y).is_none());
        }
    }
    for p in st.squares.iter().filter_map(|s| s.content) {
        assert!(!p.has_moved);
        assert!(!p.en_passanteable);
    }
}

#[test]
fn twenty_moves_available_at_the_start() {
    let st = State::new();
    assert_eq!(st.get_all_moves_for_colour(ChessColour::White).len(), 20);
    assert_eq!(st.get_all_moves_for_colour(ChessColour::Black).len(), 20);
}

#[test]
fn from_char_reads_piece_letters() {
    let p = Piece::from_char('P').unwrap();
    assert_eq!(p.kind, PieceKind::Pawn);
    assert_eq!(p.colour, ChessColour::White);
    assert!(!p.has_moved);
    assert!(!p.en_passanteable);
    let k = Piece::from_char('k').unwrap();
    assert_eq!(k.kind, PieceKind::King);
    assert_eq!(k.colour, ChessColour::Black);
    assert_eq!(Piece::from_char('q').unwrap().kind, PieceKind::Queen);
    assert_eq!(Piece::from_char('N').unwrap().kind, PieceKind::Knight);
    assert_eq!(Piece::from_char('b').unwrap().kind, PieceKind::Bishop);
    assert_eq!(Piece::from_char('R').unwrap().kind, PieceKind::Rook);
    assert!(Piece::from_char(' ').is_none());
    assert!(Piece::from_char('x').is_none());
    assert!(Piece::from_char('1').is_none());
}

#[test]
fn kind_classification_and_colour_flip() {
    assert!(PieceKind::Rook.is_sliding());
    assert!(PieceKind::Bishop.is_sliding());
    assert!(PieceKind::Queen.is_sliding());
    assert!(!PieceKind::Pawn.is_sliding());
    assert!(!PieceKind::Knight.is_sliding());
    assert!(!PieceKind::King.is_sliding());
    assert_eq!(ChessColour::White.flip(), ChessColour::Black);
    assert_eq!(ChessColour::Black.flip(), ChessColour::White);
}

#[test]
fn coordinate_text_forms() {
    assert_eq!(coord_string(4, 1), "e2");
    assert_eq!(coord_string(0, 0), "a1");
    assert_eq!(coord_string(7, 7), "h8");
    let st = State::new();
    assert_eq!(st.squares[(4 + 8 * 1) as usize].coord(), "e2");
    let pm = PerformedMove::new((4, 1), (4, 3));
    assert_eq!(pm.text(), "e2e4");
}

#[test]
fn square_display_colours() {
    let st = State::new();
    let a1 = st.squares[0];
    assert_eq!(a1.colour(false), (0, 79, 122));
    assert_eq!(a1.colour(true), (4, 38, 56));
    let b1 = st.squares[1];
    assert_eq!(b1.colour(false), (161, 222, 255));
    assert_eq!(b1.colour(true), (141, 177, 196));
}

#[test]
fn chess_moves_compare_by_destination() {
    let a = schaak::chess_move::ChessMove::dummy((3, 4));
    let b = schaak::chess_move::ChessMove {
        dst: (3, 4),
        kind: schaak::chess_move::MoveKind::Normal { src: (0, 0) },
    };
    let c = schaak::chess_move::ChessMove::dummy((3, 5));
    assert!(a == b);
    assert!(!(a == c));
}
