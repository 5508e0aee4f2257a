use connect_four::{starting_slot, AwardState, BoardState, BoardStruct, Cell, Error, Slot};

fn game(id: u64) -> BoardStruct {
    BoardStruct::new(id, 1, 2, AwardState { win: 10, lose: 5 }, 100)
}

#[test]
fn opening_role_follows_lowest_byte_of_id() {
    assert_eq!(starting_slot(0), Slot::First);
    assert_eq!(starting_slot(127), Slot::First);
    assert_eq!(starting_slot(128), Slot::Second);
    assert_eq!(starting_slot(255), Slot::Second);
    assert_eq!(starting_slot(256), Slot::First);
    assert_eq!(starting_slot(383), Slot::First);
    assert_eq!(starting_slot(384), Slot::Second);
}

#[test]
fn new_game_is_running_on_empty_board() {
    let g = game(7);
    assert_eq!(g.id, 7);
    assert_eq!(g.red, 1);
    assert_eq!(g.blue, 2);
    assert_eq!(g.last_turn, 100);
    assert_eq!(g.next_player, Slot::First);
    assert_eq!(g.board_state, BoardState::Running);
    assert!(g.board.cells.iter().all(|c| *c == Cell::Empty));
    assert_eq!(game(200).next_player, Slot::Second);
}

#[test]
fn move_out_of_turn_is_refused() {
    let mut g = game(7);
    assert_eq!(g.apply_move(2, 0, 101), Err(Error::NotPlayerTurn));
    assert_eq!(g.board.get(0, 0), Cell::Empty);
    assert_eq!(g.next_player, Slot::First);
}

#[test]
fn column_outside_board_is_refused() {
    let mut g = game(7);
    assert_eq!(g.apply_move(1, 7, 101), Err(Error::InvalidColumn));
    assert_eq!(g.next_player, Slot::First);
}

#[test]
fn full_column_move_is_refused_without_passing_turn() {
    let mut g = game(7);
    for i in 0..6 {
        let who = if i % 2 == 0 { 1 } else { 2 };
        assert_eq!(g.apply_move(who, 4, 101 + i), Ok(BoardState::Running));
    }
    assert_eq!(g.apply_move(1, 4, 200), Err(Error::ColumnFull));
    assert_eq!(g.next_player, Slot::First);
    assert_eq!(g.last_turn, 106);
}

#[test]
fn turns_alternate_between_accepted_moves() {
    let mut g = game(7);
    assert_eq!(g.apply_move(1, 0, 101), Ok(BoardState::Running));
    assert_eq!(g.next_player, Slot::Second);
    assert_eq!(g.last_turn, 101);
    assert_eq!(g.apply_move(1, 1, 102), Err(Error::NotPlayerTurn));
    assert_eq!(g.next_player, Slot::Second);
    assert_eq!(g.apply_move(2, 1, 103), Ok(BoardState::Running));
    assert_eq!(g.next_player, Slot::First);
    assert_eq!(g.board.get(0, 0), Cell::Occupied(Slot::First));
    assert_eq!(g.board.get(1, 0), Cell::Occupied(Slot::Second));
}

#[test]
fn fourth_stone_in_a_column_wins_and_stops_the_game() {
    let mut g = game(7);
    for _ in 0..3 {
        assert_eq!(g.apply_move(1, 0, 101), Ok(BoardState::Running));
        assert_eq!(g.apply_move(2, 1, 101), Ok(BoardState::Running));
    }
    assert_eq!(g.apply_move(1, 0, 150), Ok(BoardState::Finished(Some(1))));
    assert_eq!(g.board_state, BoardState::Finished(Some(1)));
    assert_eq!(g.apply_move(2, 1, 151), Err(Error::NotRunning));
}
