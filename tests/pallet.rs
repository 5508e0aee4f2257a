use connect_four::{AwardState, BoardState, Error, Event, Pallet};

const X: u64 = 1;
const Y: u64 = 2;
const Z: u64 = 3;
const W: u64 = 4;

// Ids whose lowest byte is below 128 let the responder (or the second queued
// account) open; the others let the challenger (or the waiting account) open.
const RESPONDER_OPENS: u64 = 7;
const CHALLENGER_OPENS: u64 = 200;

const DRAW: [u8; 42] = [
    4, 3, 6, 0, 1, 4, 5, 5, 1, 1, 5, 0, 1, 6, 0, 1, 5, 5, 1, 0, 4, 6, 3, 2, 6, 6, 0, 4, 6, 5,
    2, 0, 4, 2, 4, 2, 2, 2, 3, 3, 3, 3,
];

/// `winner` beats `loser` in a challenge game played for `win` / `lose` points.
fn win_challenge(p: &mut Pallet, winner: u64, loser: u64, win: u32, lose: u32, id: u64) {
    p.challenge(winner, loser, win, lose).unwrap();
    p.resp_challenge(loser, winner, true, id | 0x80, 0).unwrap();
    for _ in 0..3 {
        p.play_turn(winner, 0, 1).unwrap();
        p.play_turn(loser, 1, 1).unwrap();
    }
    p.play_turn(winner, 0, 2).unwrap();
}

#[test]
fn fresh_store_is_empty() {
    let p = Pallet::new();
    assert_eq!(p.nonce(), 0);
    assert_eq!(p.queue_len(), 0);
    assert_eq!(p.score(X), 0);
    assert_eq!(p.scoring_board(X), None);
    assert_eq!(p.player_board(X), None);
    assert_eq!(p.challenges(X), None);
    assert!(p.boards(0).is_none());
    assert_eq!(connect_four::NonceDefault(), 0);
}

#[test]
fn close_scores_are_paired_by_the_queue() {
    let mut p = Pallet::new();
    win_challenge(&mut p, Y, W, 5, 5, 10);
    assert_eq!(p.score(Y), 5);
    assert_eq!(p.score(X), 0);
    assert!(matches!(p.find_game(X, 20, 3), Ok(None)));
    assert_eq!(p.match_queue(X), Some(0));
    assert!(matches!(p.find_game(Y, 20, 4), Ok(Some(Event::NewBoard(20)))));
    assert_eq!(p.match_queue(X), None);
    assert_eq!(p.match_queue(Y), None);
    assert_eq!(p.queue_len(), 0);
    assert_eq!(p.player_board(X), Some(20));
    assert_eq!(p.player_board(Y), Some(20));
    let g = p.boards(20).unwrap();
    assert_eq!(g.red, Y);
    assert_eq!(g.blue, X);
    assert_eq!(g.award, AwardState { win: 10, lose: 5 });
    assert_eq!(g.board_state, BoardState::Running);
    assert_eq!(g.last_turn, 4);
}

#[test]
fn distant_scores_wait_in_the_queue() {
    let mut p = Pallet::new();
    win_challenge(&mut p, Y, W, 11, 0, 10);
    assert_eq!(p.score(Y), 11);
    assert!(matches!(p.find_game(X, 20, 3), Ok(None)));
    assert!(matches!(p.find_game(Y, 21, 4), Ok(None)));
    assert_eq!(p.queue_len(), 2);
    assert_eq!(p.match_queue(Y), Some(11));
    assert_eq!(p.player_board(X), None);
    assert!(matches!(p.find_game(Z, 22, 5), Ok(Some(Event::NewBoard(22)))));
    assert_eq!(p.player_board(Z), Some(22));
    assert_eq!(p.boards(22).unwrap().blue, X);
    assert_eq!(p.match_queue(Y), Some(11));
}

#[test]
fn queue_refuses_players_challengers_and_queued() {
    let mut p = Pallet::new();
    assert!(matches!(p.find_game(X, 30, 0), Ok(None)));
    assert!(matches!(p.find_game(X, 30, 0), Err(Error::AlreadyQueued)));
    p.challenge(Z, W, 1, 1).unwrap();
    assert!(matches!(p.find_game(Z, 30, 0), Err(Error::ReChallengeError)));
    assert!(matches!(p.find_game(Y, 30, 0), Ok(Some(Event::NewBoard(30)))));
    assert!(matches!(p.find_game(Y, 31, 0), Err(Error::PlayerBoardExists)));
    assert!(matches!(p.find_game(X, 31, 0), Err(Error::PlayerBoardExists)));
    assert_eq!(p.queue_len(), 0);
}

#[test]
fn cancel_queue_removes_the_entry() {
    let mut p = Pallet::new();
    assert!(matches!(p.cancel_queue(X), Err(Error::NotFound)));
    assert!(matches!(p.find_game(X, 30, 0), Ok(None)));
    assert!(matches!(p.cancel_queue(X), Ok(Event::CancelQueue(X))));
    assert_eq!(p.match_queue(X), None);
    assert!(matches!(p.cancel_queue(X), Err(Error::NotFound)));
}

#[test]
fn rejected_challenge_is_gone_and_opens_no_game() {
    let mut p = Pallet::new();
    let ev = p.challenge(X, Y, 10, 5).unwrap();
    assert!(matches!(ev, Event::AcceptChallenge(X, Y, AwardState { win: 10, lose: 5 })));
    assert_eq!(p.challenges(X), Some(AwardState { win: 10, lose: 5 }));
    let ev = p.resp_challenge(Y, X, false, 40, 0).unwrap();
    assert!(matches!(ev, Event::RejectChallenge(Y, X, AwardState { win: 10, lose: 5 })));
    assert_eq!(p.challenges(X), None);
    assert_eq!(p.player_board(X), None);
    assert_eq!(p.player_board(Y), None);
    assert!(p.boards(40).is_none());
    assert_eq!(p.nonce(), 0);
}

#[test]
fn second_challenge_is_refused_and_first_kept() {
    let mut p = Pallet::new();
    p.challenge(X, Y, 10, 5).unwrap();
    assert!(matches!(p.challenge(X, Z, 3, 3), Err(Error::ReChallengeError)));
    assert_eq!(p.challenges(X), Some(AwardState { win: 10, lose: 5 }));
    let ev = p.resp_challenge(Y, X, true, 41, 9).unwrap();
    assert!(matches!(ev, Event::NewBoard(41)));
    let g = p.boards(41).unwrap();
    assert_eq!(g.red, Y);
    assert_eq!(g.blue, X);
    assert_eq!(g.award, AwardState { win: 10, lose: 5 });
}

#[test]
fn challenge_refusals() {
    let mut p = Pallet::new();
    assert!(matches!(p.challenge(X, X, 1, 1), Err(Error::NoFakePlay)));
    p.challenge(Y, Z, 1, 1).unwrap();
    assert!(matches!(p.challenge(X, Y, 1, 1), Err(Error::WrongChallengeTurn)));
    p.resp_challenge(Z, Y, true, 50, 0).unwrap();
    assert!(matches!(p.challenge(X, Y, 1, 1), Err(Error::PlayerBoardExists)));
    assert!(matches!(p.challenge(Y, X, 1, 1), Err(Error::PlayerBoardExists)));
}

#[test]
fn respond_refusals() {
    let mut p = Pallet::new();
    assert!(matches!(p.resp_challenge(X, X, true, 60, 0), Err(Error::NoFakePlay)));
    assert!(matches!(p.resp_challenge(X, Y, true, 60, 0), Err(Error::NotFound)));
    p.challenge(X, Y, 1, 1).unwrap();
    p.challenge(Z, W, 1, 1).unwrap();
    assert!(matches!(p.resp_challenge(Z, X, true, 60, 0), Err(Error::WrongChallengeTurn)));
    assert_eq!(p.challenges(X), Some(AwardState { win: 1, lose: 1 }));
    p.resp_challenge(W, Z, true, 61, 0).unwrap();
    assert!(matches!(p.resp_challenge(Y, Z, true, 62, 0), Err(Error::PlayerBoardExists)));
    assert!(matches!(p.resp_challenge(W, X, true, 62, 0), Err(Error::PlayerBoardExists)));
}

#[test]
fn cancel_challenge_removes_the_record() {
    let mut p = Pallet::new();
    assert!(matches!(p.cancel_challenge(X), Err(Error::NotFound)));
    p.challenge(X, Y, 2, 2).unwrap();
    assert!(matches!(p.cancel_challenge(X), Ok(Event::CancelChallenge(X))));
    assert_eq!(p.challenges(X), None);
    p.challenge(X, Y, 2, 2).unwrap();
}

#[test]
fn winning_move_settles_award_and_frees_both_players() {
    let mut p = Pallet::new();
    p.challenge(X, Y, 10, 5).unwrap();
    p.resp_challenge(Y, X, true, CHALLENGER_OPENS, 0).unwrap();
    assert!(matches!(p.play_turn(Y, 0, 1), Err(Error::NotPlayerTurn)));
    for i in 0..3 {
        p.play_turn(X, 3, 1 + i).unwrap();
        p.play_turn(Y, 4, 1 + i).unwrap();
    }
    assert_eq!(p.boards(CHALLENGER_OPENS).unwrap().last_turn, 3);
    let ev = p.play_turn(X, 3, 9).unwrap();
    match ev {
        Event::GameState(g) => assert_eq!(g.board_state, BoardState::Finished(Some(X))),
        _ => panic!("expected the game state"),
    }
    assert_eq!(p.scoring_board(X), Some(10));
    assert_eq!(p.scoring_board(Y), Some(-5));
    assert_eq!(p.player_board(X), None);
    assert_eq!(p.player_board(Y), None);
    assert!(p.boards(CHALLENGER_OPENS).is_none());
    assert!(matches!(p.play_turn(X, 3, 10), Err(Error::NoPlayerBoard)));
}

#[test]
fn settlement_adds_to_existing_scores() {
    let mut p = Pallet::new();
    win_challenge(&mut p, X, Y, 10, 5, 70);
    win_challenge(&mut p, Y, X, 3, 4, 71);
    assert_eq!(p.score(X), 6);
    assert_eq!(p.score(Y), -2);
}

#[test]
fn drawn_game_finishes_without_settlement() {
    let mut p = Pallet::new();
    p.challenge(X, Y, 10, 5).unwrap();
    p.resp_challenge(Y, X, true, RESPONDER_OPENS, 0).unwrap();
    let mut last = None;
    for (i, &c) in DRAW.iter().enumerate() {
        let who = if i % 2 == 0 { Y } else { X };
        last = Some(p.play_turn(who, c, i as u64).unwrap());
    }
    match last {
        Some(Event::GameState(g)) => {
            assert_eq!(g.board_state, BoardState::Finished(None));
            assert!(g.board.full());
        }
        _ => panic!("expected the game state"),
    }
    assert_eq!(p.scoring_board(X), None);
    assert_eq!(p.scoring_board(Y), None);
    assert_eq!(p.player_board(X), None);
    assert_eq!(p.player_board(Y), None);
    assert!(p.boards(RESPONDER_OPENS).is_none());
}

#[test]
fn play_refusals() {
    let mut p = Pallet::new();
    assert!(matches!(p.play_turn(X, 0, 0), Err(Error::NoPlayerBoard)));
    p.challenge(X, Y, 1, 1).unwrap();
    p.resp_challenge(Y, X, true, RESPONDER_OPENS, 0).unwrap();
    assert!(matches!(p.play_turn(Y, 7, 1), Err(Error::InvalidColumn)));
    for i in 0..6 {
        let who = if i % 2 == 0 { Y } else { X };
        p.play_turn(who, 2, 1).unwrap();
    }
    assert!(matches!(p.play_turn(Y, 2, 1), Err(Error::ColumnFull)));
    p.play_turn(Y, 3, 1).unwrap();
}

#[test]
fn queued_accounts_never_hold_a_game() {
    let mut p = Pallet::new();
    assert!(matches!(p.find_game(X, 80, 0), Ok(None)));
    assert!(matches!(p.find_game(Y, 80, 0), Ok(Some(_))));
    assert_eq!(p.match_queue(X), None);
    assert_eq!(p.match_queue(Y), None);
    assert!(matches!(p.find_game(Z, 81, 0), Ok(None)));
    assert_eq!(p.player_board(Z), None);
    assert!(matches!(p.find_game(X, 81, 0), Err(Error::PlayerBoardExists)));
    assert_eq!(p.queue_len(), 1);
}

#[test]
fn nonce_moves_on_with_each_game() {
    let mut p = Pallet::new();
    p.challenge(X, Y, 1, 1).unwrap();
    p.resp_challenge(Y, X, true, 90, 0).unwrap();
    assert_eq!(p.nonce(), 1);
    assert!(matches!(p.find_game(Z, 91, 0), Ok(None)));
    assert_eq!(p.nonce(), 1);
    assert!(matches!(p.find_game(W, 91, 0), Ok(Some(_))));
    assert_eq!(p.nonce(), 2);
}
