//! The state store: running games, the account-to-game index, the match queue,
//! outstanding challenges and the score ledger, with the requests that change them.
use vstd::prelude::*;

use std::collections::HashMap;

use crate::board::lemma_empty_board_is_legal;
use crate::error::Error;
use crate::session::{AwardState, BoardState, BoardStruct};

verus! {

broadcast use vstd::std_specs::hash::group_hash_axioms;

/// Largest score difference at which two queued accounts are paired.
pub const ACCEPTED_DIFF: i64 = 10;

/// The nonce of a fresh state store.
#[allow(non_snake_case)]
pub fn NonceDefault() -> (r: u64)
    ensures
        r == 0,
{
    0
}

/// An account waiting in the match queue, with its score when it joined.
#[derive(Clone, Copy, Debug, PartialEq, Eq, Structural)]
pub struct QueueEntry {
    pub account: u64,
    pub score: i64,
}

/// What an accepted request reports.
#[derive(Clone, Copy, Debug)]
pub enum Event {
    /// A challenge was issued: challenger, target, terms.
    AcceptChallenge(u64, u64, AwardState),
    /// A challenge was turned down: responder, challenger, terms.
    RejectChallenge(u64, u64, AwardState),
    /// A challenger withdrew its challenge.
    CancelChallenge(u64),
    /// An account left the match queue.
    CancelQueue(u64),
    /// A game was opened under this id.
    NewBoard(u64),
    /// A move was played; the game as it stands afterwards.
    GameState(BoardStruct),
}

/// The contents of the state store.
pub struct PalletView {
    pub boards: Map<u64, BoardStruct>,
    pub player_board: Map<u64, u64>,
    pub queue: Seq<QueueEntry>,
    pub challenges: Map<u64, AwardState>,
    pub scores: Map<u64, i64>,
    pub nonce: u64,
}

/// The score of `a`: 0 until its first game was settled.
pub open spec fn score_of(scores: Map<u64, i64>, a: u64) -> int {
    if scores.contains_key(a) {
        scores[a] as int
    } else {
        0
    }
}

/// `x`, held to the range of `i64`.
pub open spec fn saturate(x: int) -> i64 {
    if x > i64::MAX {
        i64::MAX
    } else if x < i64::MIN {
        i64::MIN
    } else {
        x as i64
    }
}

/// The ledger after `winner` gained `award.win` and then `loser` gave up
/// `award.lose`.
pub open spec fn settled(scores: Map<u64, i64>, winner: u64, loser: u64, award: AwardState) -> Map<
    u64,
    i64,
> {
    let s1 = scores.insert(winner, saturate(score_of(scores, winner) + award.win));
    s1.insert(loser, saturate(score_of(s1, loser) - award.lose))
}

/// The nonce after one more game was opened.
pub open spec fn next_nonce(n: u64) -> u64 {
    if n == u64::MAX {
        0
    } else {
        (n + 1) as u64
    }
}

/// Two scores are close enough for a queued pairing.
pub open spec fn within_reach(a: int, b: int) -> bool {
    -10 <= a - b <= 10
}

/// The first position at or after `i` whose score is within reach of `score`, or
/// the queue's length.
pub open spec fn match_from(q: Seq<QueueEntry>, score: int, i: int) -> int
    decreases q.len() - i,
{
    if i >= q.len() {
        q.len() as int
    } else if within_reach(q[i].score as int, score) {
        i
    } else {
        match_from(q, score, i + 1)
    }
}

/// The first position in the queue whose score is within reach of `score`, or the
/// queue's length.
pub open spec fn first_match(q: Seq<QueueEntry>, score: int) -> int {
    match_from(q, score, 0)
}

/// The first position at or after `i` that holds `a`, or the queue's length.
pub open spec fn position_from(q: Seq<QueueEntry>, a: u64, i: int) -> int
    decreases q.len() - i,
{
    if i >= q.len() {
        q.len() as int
    } else if q[i].account == a {
        i
    } else {
        position_from(q, a, i + 1)
    }
}

/// The position of `a` in the queue, or the queue's length.
pub open spec fn queue_position(q: Seq<QueueEntry>, a: u64) -> int {
    position_from(q, a, 0)
}

/// `a` waits in the queue.
pub open spec fn is_queued(q: Seq<QueueEntry>, a: u64) -> bool {
    exists|i: int| 0 <= i < q.len() && #[trigger] q[i].account == a
}

/// No account waits in the queue twice.
pub open spec fn queue_unique(q: Seq<QueueEntry>) -> bool {
    forall|i: int, j: int|
        0 <= i < j < q.len() ==> #[trigger] q[i].account != #[trigger] q[j].account
}

/// No queued account takes part in a running game.
pub open spec fn queue_apart_from_games(v: PalletView) -> bool {
    forall|i: int|
        0 <= i < v.queue.len() ==> !v.player_board.contains_key(#[trigger] v.queue[i].account)
}

/// Every stored game runs, between two different accounts, on a board without gaps.
pub open spec fn games_wf(v: PalletView) -> bool {
    forall|id: u64| v.boards.contains_key(id) ==> #[trigger] v.boards[id].wf()
}

/// `w` is `v` with game `id` opened between `red` and `blue`: the game is stored,
/// both accounts point at it and the nonce moved on; nothing else of the games
/// changed.
pub open spec fn game_opened(
    v: PalletView,
    w: PalletView,
    red: u64,
    blue: u64,
    award: AwardState,
    id: u64,
    now: u64,
) -> bool {
    &&& w.boards == v.boards.insert(id, w.boards[id])
    &&& w.boards[id].is_new_game(id, red, blue, award, now)
    &&& w.player_board == v.player_board.insert(red, id).insert(blue, id)
    &&& w.nonce == next_nonce(v.nonce)
}

/// Why `sender` may not join the match queue, if there is a reason.
pub open spec fn find_game_error(v: PalletView, sender: u64) -> Option<Error> {
    if v.player_board.contains_key(sender) {
        Some(Error::PlayerBoardExists)
    } else if v.challenges.contains_key(sender) {
        Some(Error::ReChallengeError)
    } else if is_queued(v.queue, sender) {
        Some(Error::AlreadyQueued)
    } else {
        None
    }
}

/// Why `sender` may not challenge `opponent`, if there is a reason.
pub open spec fn challenge_error(v: PalletView, sender: u64, opponent: u64) -> Option<Error> {
    if sender == opponent {
        Some(Error::NoFakePlay)
    } else if v.player_board.contains_key(sender) || v.player_board.contains_key(opponent) {
        Some(Error::PlayerBoardExists)
    } else if v.challenges.contains_key(opponent) {
        Some(Error::WrongChallengeTurn)
    } else if v.challenges.contains_key(sender) {
        Some(Error::ReChallengeError)
    } else {
        None
    }
}

/// Why `sender` may not answer the challenge of `opponent`, if there is a reason.
pub open spec fn respond_error(v: PalletView, sender: u64, opponent: u64) -> Option<Error> {
    if sender == opponent {
        Some(Error::NoFakePlay)
    } else if v.player_board.contains_key(sender) || v.player_board.contains_key(opponent) {
        Some(Error::PlayerBoardExists)
    } else if v.challenges.contains_key(sender) {
        Some(Error::WrongChallengeTurn)
    } else if !v.challenges.contains_key(opponent) {
        Some(Error::NotFound)
    } else {
        None
    }
}

/// Why `sender` may not drop a stone into `column` now, if there is a reason.
pub open spec fn play_error(v: PalletView, sender: u64, column: int) -> Option<Error> {
    if !v.player_board.contains_key(sender) || !v.boards.contains_key(v.player_board[sender]) {
        Some(Error::NoPlayerBoard)
    } else {
        v.boards[v.player_board[sender]].move_error(sender, column)
    }
}

/// `w` is `v` after `sender` played `column` at `now`, leaving its game as `t`: a
/// game that goes on is stored as `t`; a finished one is removed together with both
/// accounts' entries in the index, and a won one settles the award, the winner
/// being `sender`.
pub open spec fn turn_played(
    v: PalletView,
    sender: u64,
    column: int,
    now: u64,
    t: BoardStruct,
    w: PalletView,
) -> bool {
    let id = v.player_board[sender];
    let g = v.boards[id];
    &&& g.moved_to(sender, column, now, t)
    &&& w.queue == v.queue
    &&& w.challenges == v.challenges
    &&& w.nonce == v.nonce
    &&& if t.board_state == BoardState::Running {
        &&& w.boards == v.boards.insert(id, t)
        &&& w.player_board == v.player_board
        &&& w.scores == v.scores
    } else {
        &&& w.boards == v.boards.remove(id)
        &&& w.player_board == v.player_board.remove(g.red).remove(g.blue)
        &&& w.scores == if t.board_state == BoardState::Finished(Some(sender)) {
            settled(v.scores, sender, g.player(g.next_player.opponent()), g.award)
        } else {
            v.scores
        }
    }
}

proof fn lemma_position_from(q: Seq<QueueEntry>, a: u64, i: int)
    requires
        0 <= i <= q.len(),
    ensures
        i <= position_from(q, a, i) <= q.len(),
        forall|k: int| i <= k < position_from(q, a, i) ==> q[k].account != a,
        position_from(q, a, i) < q.len() ==> q[position_from(q, a, i)].account == a,
    decreases q.len() - i,
{
    if i < q.len() && q[i].account != a {
        lemma_position_from(q, a, i + 1);
    }
}

proof fn lemma_match_from(q: Seq<QueueEntry>, score: int, i: int)
    requires
        0 <= i <= q.len(),
    ensures
        i <= match_from(q, score, i) <= q.len(),
    decreases q.len() - i,
{
    if i < q.len() && !within_reach(q[i].score as int, score) {
        lemma_match_from(q, score, i + 1);
    }
}

/// Settling a decisive game adds the winning points to the winner's score and takes
/// the losing points from the loser's, wherever the result fits in an `i64`, and
/// leaves every other score as it was.
pub proof fn lemma_settlement(scores: Map<u64, i64>, winner: u64, loser: u64, award: AwardState)
    requires
        winner != loser,
        score_of(scores, winner) + award.win <= i64::MAX,
        score_of(scores, loser) - award.lose >= i64::MIN,
    ensures
        score_of(settled(scores, winner, loser, award), winner) == score_of(scores, winner)
            + award.win,
        score_of(settled(scores, winner, loser, award), loser) == score_of(scores, loser)
            - award.lose,
        forall|a: u64|
            a != winner && a != loser ==> score_of(settled(scores, winner, loser, award), a)
                == score_of(scores, a),
{
}

/// When a move wins its game, the mover's score grows by the game's winning points,
/// the other player's score drops by its losing points (wherever the results fit in
/// an `i64`), and neither player is left in the index of running games.
pub proof fn lemma_win_settles(
    v: PalletView,
    sender: u64,
    column: int,
    now: u64,
    t: BoardStruct,
    w: PalletView,
)
    requires
        games_wf(v),
        play_error(v, sender, column) is None,
        turn_played(v, sender, column, now, t, w),
        t.board_state == BoardState::Finished(Some(sender)),
        ({
            let g = v.boards[v.player_board[sender]];
            let loser = g.player(g.next_player.opponent());
            &&& score_of(v.scores, sender) + g.award.win <= i64::MAX
            &&& score_of(v.scores, loser) - g.award.lose >= i64::MIN
        }),
    ensures
        ({
            let g = v.boards[v.player_board[sender]];
            let loser = g.player(g.next_player.opponent());
            &&& loser != sender
            &&& score_of(w.scores, sender) == score_of(v.scores, sender) + g.award.win
            &&& score_of(w.scores, loser) == score_of(v.scores, loser) - g.award.lose
            &&& !w.player_board.contains_key(sender)
            &&& !w.player_board.contains_key(loser)
        }),
{
    let g = v.boards[v.player_board[sender]];
    assert(g.wf());
    let loser = g.player(g.next_player.opponent());
    lemma_settlement(v.scores, sender, loser, g.award);
}

/// Adds `b` to `a`, held to the range of `i64`.
fn add_held(a: i64, b: u32) -> (r: i64)
    ensures
        r == saturate(a + b),
{
    if a > i64::MAX - b as i64 {
        i64::MAX
    } else {
        a + b as i64
    }
}

/// Takes `b` from `a`, held to the range of `i64`.
fn sub_held(a: i64, b: u32) -> (r: i64)
    ensures
        r == saturate(a - b),
{
    if a < i64::MIN + b as i64 {
        i64::MIN
    } else {
        a - b as i64
    }
}

/// The whole state: running games by id, the game of each playing account, the
/// match queue in the order of arrival, outstanding challenges by challenger, the
/// score ledger, and the nonce from which game ids are drawn.
pub struct Pallet {
    boards: HashMap<u64, BoardStruct>,
    player_board: HashMap<u64, u64>,
    match_queue: Vec<QueueEntry>,
    challenges: HashMap<u64, AwardState>,
    scoring_board: HashMap<u64, i64>,
    nonce: u64,
}

impl View for Pallet {
    type V = PalletView;

    closed spec fn view(&self) -> PalletView {
        PalletView {
            boards: self.boards@,
            player_board: self.player_board@,
            queue: self.match_queue@,
            challenges: self.challenges@,
            scores: self.scoring_board@,
            nonce: self.nonce,
        }
    }
}

impl Pallet {
    /// An empty store: no game, no queue, no challenge, no score.
    pub fn new() -> (r: Pallet)
        ensures
            r@.boards == Map::<u64, BoardStruct>::empty(),
            r@.player_board == Map::<u64, u64>::empty(),
            r@.queue == Seq::<QueueEntry>::empty(),
            r@.challenges == Map::<u64, AwardState>::empty(),
            r@.scores == Map::<u64, i64>::empty(),
            r@.nonce == 0,
            queue_apart_from_games(r@),
            queue_unique(r@.queue),
            games_wf(r@),
    {
        Pallet {
            boards: HashMap::new(),
            player_board: HashMap::new(),
            match_queue: Vec::new(),
            challenges: HashMap::new(),
            scoring_board: HashMap::new(),
            nonce: NonceDefault(),
        }
    }

    /// The game with id `id`, while it runs.
    pub fn boards(&self, id: u64) -> (r: Option<BoardStruct>)
        ensures
            r == (if self@.boards.contains_key(id) {
                Some(self@.boards[id])
            } else {
                None
            }),
    {
        match self.boards.get(&id) {
            Some(g) => Some(*g),
            None => None,
        }
    }

    /// The id of the game that `account` plays in, if any.
    pub fn player_board(&self, account: u64) -> (r: Option<u64>)
        ensures
            r == (if self@.player_board.contains_key(account) {
                Some(self@.player_board[account])
            } else {
                None
            }),
    {
        match self.player_board.get(&account) {
            Some(id) => Some(*id),
            None => None,
        }
    }

    /// The terms of the challenge that `account` issued, if it has one outstanding.
    pub fn challenges(&self, account: u64) -> (r: Option<AwardState>)
        ensures
            r == (if self@.challenges.contains_key(account) {
                Some(self@.challenges[account])
            } else {
                None
            }),
    {
        match self.challenges.get(&account) {
            Some(a) => Some(*a),
            None => None,
        }
    }

    /// The recorded score of `account`, if any game of it was settled.
    pub fn scoring_board(&self, account: u64) -> (r: Option<i64>)
        ensures
            r == (if self@.scores.contains_key(account) {
                Some(self@.scores[account])
            } else {
                None
            }),
    {
        match self.scoring_board.get(&account) {
            Some(s) => Some(*s),
            None => None,
        }
    }

    /// The score with which `account` waits in the match queue, if it does.
    pub fn match_queue(&self, account: u64) -> (r: Option<i64>)
        ensures
            r is Some <==> is_queued(self@.queue, account),
            r matches Some(s) ==> s == self@.queue[queue_position(self@.queue, account)].score,
    {
        let i = self.queue_index(account);
        if i < self.match_queue.len() {
            proof {
                lemma_position_from(self@.queue, account, 0);
            }
            Some(self.match_queue[i].score)
        } else {
            None
        }
    }

    /// The number of accounts waiting in the match queue.
    pub fn queue_len(&self) -> (r: usize)
        ensures
            r == self@.queue.len(),
    {
        self.match_queue.len()
    }

    /// The nonce from which the next game id is drawn.
    pub fn nonce(&self) -> (r: u64)
        ensures
            r == self@.nonce,
    {
        self.nonce
    }

    /// The score of `account`: 0 until its first game was settled.
    pub fn score(&self, account: u64) -> (r: i64)
        ensures
            r == score_of(self@.scores, account),
    {
        match self.scoring_board.get(&account) {
            Some(s) => *s,
            None => 0,
        }
    }

    /// The position of `account` in the match queue, or the queue's length.
    fn queue_index(&self, account: u64) -> (r: usize)
        ensures
            r == queue_position(self@.queue, account),
            r < self@.queue.len() <==> is_queued(self@.queue, account),
    {
        proof {
            lemma_position_from(self@.queue, account, 0);
        }
        let mut i: usize = 0;
        while i < self.match_queue.len()
            invariant
                i <= self@.queue.len(),
                position_from(self@.queue, account, i as int) == queue_position(
                    self@.queue,
                    account,
                ),
                forall|k: int| 0 <= k < i ==> self@.queue[k].account != account,
            decreases self@.queue.len() - i,
        {
            if self.match_queue[i].account == account {
                return i;
            }
            i += 1;
        }
        i
    }

    /// The first position in the match queue whose score is within reach of
    /// `score`, or the queue's length.
    fn match_index(&self, score: i64) -> (r: usize)
        ensures
            r == first_match(self@.queue, score as int),
    {
        let mut i: usize = 0;
        while i < self.match_queue.len()
            invariant
                i <= self@.queue.len(),
                match_from(self@.queue, score as int, i as int) == first_match(
                    self@.queue,
                    score as int,
                ),
            decreases self@.queue.len() - i,
        {
            let diff: i128 = self.match_queue[i].score as i128 - score as i128;
            if -(ACCEPTED_DIFF as i128) <= diff && diff <= ACCEPTED_DIFF as i128 {
                return i;
            }
            i += 1;
        }
        i
    }

    /// Opens game `id` between `red` and `blue` at `now`: the role that opens is
    /// drawn from the id, both accounts point at the game, and the nonce moves on.
    fn create_game(&mut self, red: u64, blue: u64, award: AwardState, id: u64, now: u64) -> (r: u64)
        requires
            red != blue,
        ensures
            games_wf(old(self)@) ==> games_wf(final(self)@),
            r == id,
            game_opened(old(self)@, final(self)@, red, blue, award, id, now),
            final(self)@.queue == old(self)@.queue,
            final(self)@.challenges == old(self)@.challenges,
            final(self)@.scores == old(self)@.scores,
    {
        let board = BoardStruct::new(id, red, blue, award, now);
        proof {
            lemma_empty_board_is_legal();
        }
        self.boards.insert(id, board);
        self.player_board.insert(red, id);
        self.player_board.insert(blue, id);
        self.nonce = self.nonce.wrapping_add(1);
        proof {
            if games_wf(old(self)@) {
                assert forall|k: u64| self@.boards.contains_key(k) implies #[trigger] self@.boards[k].wf() by {
                    if k != id {
                        assert(old(self)@.boards.contains_key(k));
                        assert(self@.boards[k] == old(self)@.boards[k]);
                    }
                }
            }
        }
        id
    }

    /// `sender` looks for an opponent at time `now`. Refused when it has a game, an
    /// outstanding challenge, or already waits in the queue. Otherwise it is paired
    /// with the first queued account whose score lies within 10 of its own: that
    /// entry leaves the queue and game `id` opens between the two. Without such an
    /// account `sender` joins the end of the queue with its score.
    pub fn find_game(&mut self, sender: u64, id: u64, now: u64) -> (r: Result<Option<Event>, Error>)
        requires
            !old(self)@.boards.contains_key(id),
        ensures
            r is Ok <==> find_game_error(old(self)@, sender) is None,
            r matches Err(e) ==> find_game_error(old(self)@, sender) == Some(e) && final(self)@
                == old(self)@,
            ({
                let v = old(self)@;
                let w = final(self)@;
                let score = score_of(v.scores, sender);
                let k = first_match(v.queue, score);
                r is Ok ==> if k < v.queue.len() {
                    &&& r == Ok::<Option<Event>, Error>(Some(Event::NewBoard(id)))
                    &&& w.queue == v.queue.remove(k)
                    &&& game_opened(v, w, sender, v.queue[k].account, AwardState { win: 10, lose: 5 }, id, now)
                    &&& w.challenges == v.challenges
                    &&& w.scores == v.scores
                } else {
                    &&& r == Ok::<Option<Event>, Error>(None)
                    &&& w == (PalletView { queue: v.queue.push(QueueEntry { account: sender, score: score as i64 }), ..v })
                }
            }),
            queue_apart_from_games(old(self)@) && queue_unique(old(self)@.queue)
                ==> queue_apart_from_games(final(self)@) && queue_unique(final(self)@.queue),
            games_wf(old(self)@) ==> games_wf(final(self)@),
    {
        if self.player_board.contains_key(&sender) {
            return Err(Error::PlayerBoardExists);
        }
        if self.challenges.contains_key(&sender) {
            return Err(Error::ReChallengeError);
        }
        if self.queue_index(sender) < self.match_queue.len() {
            return Err(Error::AlreadyQueued);
        }
        let score = self.score(sender);
        let k = self.match_index(score);
        proof {
            lemma_match_from(self@.queue, score as int, 0);
        }
        if k < self.match_queue.len() {
            let ghost v = self@;
            let opponent = self.match_queue.remove(k);
            let _ = self.create_game(sender, opponent.account, AwardState::queue_default(), id, now);
            proof {
                let w = self@;
                if queue_apart_from_games(v) && queue_unique(v.queue) {
                    assert forall|i: int| 0 <= i < w.queue.len() implies !w.player_board.contains_key(
                        #[trigger] w.queue[i].account,
                    ) by {
                        let j = if i < k { i } else { i + 1 };
                        assert(w.queue[i] == v.queue[j]);
                        assert(v.queue[j].account != v.queue[k as int].account);
                        assert(v.queue[j].account != sender);
                    }
                    assert forall|i: int, j: int| 0 <= i < j < w.queue.len() implies #[trigger] w.queue[i].account != #[trigger] w.queue[j].account by {
                        let i2 = if i < k { i } else { i + 1 };
                        let j2 = if j < k { j } else { j + 1 };
                        assert(w.queue[i] == v.queue[i2]);
                        assert(w.queue[j] == v.queue[j2]);
                    }
                }
            }
            Ok(Some(Event::NewBoard(id)))
        } else {
            self.match_queue.push(QueueEntry { account: sender, score });
            Ok(None)
        }
    }

    /// `sender` leaves the match queue; refused with `NotFound` when it does not
    /// wait there.
    pub fn cancel_queue(&mut self, sender: u64) -> (r: Result<Event, Error>)
        ensures
            r is Ok <==> is_queued(old(self)@.queue, sender),
            r is Err ==> r == Err::<Event, Error>(Error::NotFound) && final(self)@ == old(self)@,
            r is Ok ==> r == Ok::<Event, Error>(Event::CancelQueue(sender)) && final(self)@ == (
            PalletView {
                queue: old(self)@.queue.remove(queue_position(old(self)@.queue, sender)),
                ..old(self)@
            }),
            queue_apart_from_games(old(self)@) ==> queue_apart_from_games(final(self)@),
            queue_unique(old(self)@.queue) ==> queue_unique(final(self)@.queue),
            games_wf(old(self)@) ==> games_wf(final(self)@),
    {
        let i = self.queue_index(sender);
        if i >= self.match_queue.len() {
            return Err(Error::NotFound);
        }
        let ghost v = self@;
        self.match_queue.remove(i);
        proof {
            let w = self@;
            assert forall|a: int| 0 <= a < w.queue.len() implies #[trigger] w.queue[a] == v.queue[if a < i { a } else { a + 1 }] by {}
            if queue_unique(v.queue) {
                assert forall|a: int, b: int| 0 <= a < b < w.queue.len() implies #[trigger] w.queue[a].account != #[trigger] w.queue[b].account by {
                    assert(w.queue[a] == v.queue[if a < i { a } else { a + 1 }]);
                    assert(w.queue[b] == v.queue[if b < i { b } else { b + 1 }]);
                }
            }
        }
        Ok(Event::CancelQueue(sender))
    }

    /// `sender` challenges `opponent` to a game played for `win` and `lose` points.
    /// Refused when the two are the same account, when either has a game, when
    /// `opponent` has a challenge of its own outstanding, or when `sender` already has
    /// one. Otherwise the challenge is recorded under `sender`.
    pub fn challenge(&mut self, sender: u64, opponent: u64, win: u32, lose: u32) -> (r: Result<
        Event,
        Error,
    >)
        ensures
            r is Ok <==> challenge_error(old(self)@, sender, opponent) is None,
            r matches Err(e) ==> challenge_error(old(self)@, sender, opponent) == Some(e)
                && final(self)@ == old(self)@,
            r is Ok ==> r == Ok::<Event, Error>(
                Event::AcceptChallenge(sender, opponent, AwardState { win, lose }),
            ) && final(self)@ == (PalletView {
                challenges: old(self)@.challenges.insert(sender, AwardState { win, lose }),
                ..old(self)@
            }),
            queue_apart_from_games(old(self)@) ==> queue_apart_from_games(final(self)@),
            queue_unique(old(self)@.queue) ==> queue_unique(final(self)@.queue),
            games_wf(old(self)@) ==> games_wf(final(self)@),
    {
        if sender == opponent {
            return Err(Error::NoFakePlay);
        }
        if self.player_board.contains_key(&sender) || self.player_board.contains_key(&opponent) {
            return Err(Error::PlayerBoardExists);
        }
        if self.challenges.contains_key(&opponent) {
            return Err(Error::WrongChallengeTurn);
        }
        if self.challenges.contains_key(&sender) {
            return Err(Error::ReChallengeError);
        }
        let award = AwardState { win, lose };
        self.challenges.insert(sender, award);
        Ok(Event::AcceptChallenge(sender, opponent, award))
    }

    /// `sender` answers the challenge that `opponent` issued. Refused when the two
    /// are the same account, when either has a game, when `sender` has a challenge of
    /// its own outstanding, or when `opponent` has none. Otherwise the challenge is
    /// removed, and when `accepted` game `id` opens at `now` between `sender` and
    /// `opponent` on the recorded terms.
    pub fn resp_challenge(&mut self, sender: u64, opponent: u64, accepted: bool, id: u64, now: u64) -> (r: Result<Event, Error>)
        requires
            accepted ==> !old(self)@.boards.contains_key(id),
        ensures
            r is Ok <==> respond_error(old(self)@, sender, opponent) is None,
            r matches Err(e) ==> respond_error(old(self)@, sender, opponent) == Some(e)
                && final(self)@ == old(self)@,
            ({
                let v = old(self)@;
                let w = final(self)@;
                let award = v.challenges[opponent];
                r is Ok ==> {
                    &&& w.challenges == v.challenges.remove(opponent)
                    &&& w.queue == v.queue
                    &&& w.scores == v.scores
                    &&& if accepted {
                        &&& r == Ok::<Event, Error>(Event::NewBoard(id))
                        &&& game_opened(v, w, sender, opponent, award, id, now)
                    } else {
                        &&& r == Ok::<Event, Error>(Event::RejectChallenge(sender, opponent, award))
                        &&& w.boards == v.boards
                        &&& w.player_board == v.player_board
                        &&& w.nonce == v.nonce
                    }
                }
            }),
            queue_apart_from_games(old(self)@) && !is_queued(old(self)@.queue, sender)
                && !is_queued(old(self)@.queue, opponent) ==> queue_apart_from_games(final(self)@),
            queue_unique(old(self)@.queue) ==> queue_unique(final(self)@.queue),
            games_wf(old(self)@) ==> games_wf(final(self)@),
    {
        if sender == opponent {
            return Err(Error::NoFakePlay);
        }
        if self.player_board.contains_key(&sender) || self.player_board.contains_key(&opponent) {
            return Err(Error::PlayerBoardExists);
        }
        if self.challenges.contains_key(&sender) {
            return Err(Error::WrongChallengeTurn);
        }
        let award = match self.challenges.get(&opponent) {
            Some(a) => *a,
            None => {
                return Err(Error::NotFound);
            },
        };
        let ghost v = self@;
        let event = if accepted {
            Event::NewBoard(self.create_game(sender, opponent, award, id, now))
        } else {
            Event::RejectChallenge(sender, opponent, award)
        };
        self.challenges.remove(&opponent);
        proof {
            let w = self@;
            if queue_apart_from_games(v) && !is_queued(v.queue, sender) && !is_queued(v.queue, opponent) {
                assert forall|i: int| 0 <= i < w.queue.len() implies !w.player_board.contains_key(
                    #[trigger] w.queue[i].account,
                ) by {
                    assert(w.queue[i] == v.queue[i]);
                }
            }
        }
        Ok(event)
    }

    /// `sender` withdraws its challenge; refused with `NotFound` when it has none.
    pub fn cancel_challenge(&mut self, sender: u64) -> (r: Result<Event, Error>)
        ensures
            r is Ok <==> old(self)@.challenges.contains_key(sender),
            r is Err ==> r == Err::<Event, Error>(Error::NotFound) && final(self)@ == old(self)@,
            r is Ok ==> r == Ok::<Event, Error>(Event::CancelChallenge(sender)) && final(self)@ == (
            PalletView { challenges: old(self)@.challenges.remove(sender), ..old(self)@ }),
            queue_apart_from_games(old(self)@) ==> queue_apart_from_games(final(self)@),
            queue_unique(old(self)@.queue) ==> queue_unique(final(self)@.queue),
            games_wf(old(self)@) ==> games_wf(final(self)@),
    {
        if !self.challenges.contains_key(&sender) {
            return Err(Error::NotFound);
        }
        self.challenges.remove(&sender);
        Ok(Event::CancelChallenge(sender))
    }

    /// Settles a decisive game: `winner` gains `award.win`, then `loser` gives up
    /// `award.lose`. An account without a score starts from 0.
    fn settle(&mut self, winner: u64, loser: u64, award: AwardState)
        ensures
            final(self)@ == (PalletView { scores: settled(old(self)@.scores, winner, loser, award), ..old(self)@ }),
    {
        let won = add_held(self.score(winner), award.win);
        self.scoring_board.insert(winner, won);
        let lost = sub_held(self.score(loser), award.lose);
        self.scoring_board.insert(loser, lost);
    }

    /// `sender` drops a stone into `column` of its game at time `now`. Refused when
    /// `sender` has no game, and otherwise as the game refuses the move. A game that
    /// goes on is stored; a finished one is removed with both players' index
    /// entries, and a won one is settled. Returns the game as it stands.
    pub fn play_turn(&mut self, sender: u64, column: u8, now: u64) -> (r: Result<Event, Error>)
        ensures
            r is Ok <==> play_error(old(self)@, sender, column as int) is None,
            r matches Err(e) ==> play_error(old(self)@, sender, column as int) == Some(e)
                && final(self)@ == old(self)@,
            r is Ok ==> (r matches Ok(Event::GameState(t)) && turn_played(
                old(self)@,
                sender,
                column as int,
                now,
                t,
                final(self)@,
            )),
            queue_apart_from_games(old(self)@) ==> queue_apart_from_games(final(self)@),
            queue_unique(old(self)@.queue) ==> queue_unique(final(self)@.queue),
            games_wf(old(self)@) ==> games_wf(final(self)@),
    {
        let id = match self.player_board.get(&sender) {
            Some(id) => *id,
            None => {
                return Err(Error::NoPlayerBoard);
            },
        };
        let mut game = match self.boards.get(&id) {
            Some(g) => *g,
            None => {
                return Err(Error::NoPlayerBoard);
            },
        };
        let slot = game.next_player;
        match game.apply_move(sender, column, now) {
            Err(e) => {
                return Err(e);
            },
            Ok(_) => {},
        }
        match game.board_state {
            BoardState::Running => {
                self.boards.insert(id, game);
            },
            BoardState::Finished(winner) => {
                if winner.is_some() {
                    let loser = game.player_of(slot.other());
                    self.settle(sender, loser, game.award);
                }
                self.boards.remove(&id);
                self.player_board.remove(&game.red);
                self.player_board.remove(&game.blue);
            },
        }
        Ok(Event::GameState(game))
    }
}

} // verus!
