use schaak::piece::ChessColour;
use schaak::player::MoveInfo;
use schaak::player::Player;
use schaak::player::RandomPlayer;
use schaak::state::State;

#[test]
fn pondering_picks_a_legal_move() {
    let st = State::new();
    let mut p = RandomPlayer::new(&st, ChessColour::White);
    assert!(p.move_info.is_none());
    p.ponder_new_move();
    let mi = p.move_info.expect("a legal move was picked");
    let legal = st.get_all_moves_for_colour(ChessColour::White);
    assert!(
        legal.iter().any(|(c, m)| *c == mi.coord && m.dst == mi.move_data.dst),
        "the pick comes from the legal move list"
    );
}

#[test]
fn repeated_ponders_always_pick_from_the_legal_list() {
    let st = State::new();
    let legal = st.get_all_moves_for_colour(ChessColour::White);
    for _ in 0..12 {
        let mut p = RandomPlayer::new(&st, ChessColour::White);
        p.ponder_new_move();
        let mi = p.move_info.expect("a legal move was picked");
        assert!(legal.iter().any(|(c, m)| *c == mi.coord && m.dst == mi.move_data.dst));
    }
}

#[test]
fn tick_offers_a_pondered_move_on_the_next_round() {
    let st = State::new();
    let mut p = RandomPlayer::new(&st, ChessColour::White);
    // nothing pending yet: the first tick offers nothing and ponders
    let first = p.tick(None);
    assert!(first.is_none());
    assert!(p.move_info.is_some());
    // the second tick hands the pondered move out, clears it, and — with
    // nothing incoming — starts pondering the next one
    let second = p.tick(None);
    assert!(second.is_some());
    assert!(p.move_info.is_some());
    let third = p.tick(Some(second.unwrap()));
    assert!(third.is_some(), "the freshly pondered move is offered in turn");
}

#[test]
fn applying_a_move_updates_the_mirror() {
    let st = State::new();
    let mut p = RandomPlayer::new(&st, ChessColour::Black);
    let m = st
        .get_moves((4, 1), true)
        .into_iter()
        .find(|m| m.dst == (4, 3))
        .expect("e2 to e4 available");
    p.apply_move(MoveInfo { coord: (4, 1), move_data: m });
    assert!(p.internal_state.squares[(4 + 8 * 1) as usize].content.is_none());
    assert!(p.internal_state.squares[(4 + 8 * 3) as usize].content.is_some());
    // the source state is untouched
    assert!(st.squares[(4 + 8 * 1) as usize].content.is_some());
}

#[test]
fn tick_applies_an_incoming_move_instead_of_pondering() {
    let st = State::new();
    let mut p = RandomPlayer::new(&st, ChessColour::Black);
    let m = st
        .get_moves((4, 1), true)
        .into_iter()
        .find(|m| m.dst == (4, 3))
        .expect("e2 to e4 available");
    let out = p.tick(Some(MoveInfo { coord: (4, 1), move_data: m }));
    assert!(out.is_none());
    assert!(p.move_info.is_none(), "no pondering when a move arrived");
    assert!(p.internal_state.squares[(4 + 8 * 3) as usize].content.is_some());
}
