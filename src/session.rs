//! One game between two accounts: its board, whose turn it is, and its outcome.
use vstd::prelude::*;

use crate::board::{
    board_full, drop_stone, empty_board, has_four, landing_row, legal_board,
    lemma_drop_keeps_no_gaps, Board, Cell, Slot,
};
use crate::error::Error;

verus! {

/// The points a game is played for: the winner gains `win`, the loser gives up `lose`.
#[derive(Clone, Copy, Debug, PartialEq, Eq, Structural)]
pub struct AwardState {
    pub win: u32,
    pub lose: u32,
}

impl AwardState {
    /// The terms of a game that the match queue arranged.
    pub fn queue_default() -> (r: AwardState)
        ensures
            r == (AwardState { win: 10, lose: 5 }),
    {
        AwardState { win: 10, lose: 5 }
    }
}

/// Where a game stands: still being played, or over with its winner (none for a draw).
#[derive(Clone, Copy, Debug, PartialEq, Eq, Structural)]
pub enum BoardState {
    Running,
    Finished(Option<u64>),
}

/// A game: its id, the two accounts (`red` plays the first role, `blue` the
/// second), the board, when it was last played, whose turn it is, where it stands,
/// and what it is played for.
#[derive(Clone, Copy, Debug)]
pub struct BoardStruct {
    pub id: u64,
    pub red: u64,
    pub blue: u64,
    pub board: Board,
    pub last_turn: u64,
    pub next_player: Slot,
    pub board_state: BoardState,
    pub award: AwardState,
}

/// The role that opens the game with id `id`: decided by the lowest byte of the id,
/// so by the id alone and not by who the players are.
pub open spec fn opening_slot(id: u64) -> Slot {
    if id % 256 < 128 {
        Slot::First
    } else {
        Slot::Second
    }
}

/// The role that opens the game with id `id`.
pub fn starting_slot(id: u64) -> (r: Slot)
    ensures
        r == opening_slot(id),
{
    if id % 256 < 128 {
        Slot::First
    } else {
        Slot::Second
    }
}

/// Where a game stands after `s` placed a stone for `sender`, leaving board `b`.
pub open spec fn outcome(b: Seq<Cell>, s: Slot, sender: u64) -> BoardState {
    if has_four(b, s) {
        BoardState::Finished(Some(sender))
    } else if board_full(b) {
        BoardState::Finished(None)
    } else {
        BoardState::Running
    }
}

impl BoardStruct {
    /// The account that plays role `s`.
    pub open spec fn player(self, s: Slot) -> u64 {
        match s {
            Slot::First => self.red,
            Slot::Second => self.blue,
        }
    }

    /// A running game on a board without gaps, between two different accounts.
    pub open spec fn wf(self) -> bool {
        &&& legal_board(self.board@)
        &&& self.red != self.blue
        &&& self.board_state == BoardState::Running
    }

    /// `self` is the game `id` between `red` and `blue`, just opened at `now`.
    pub open spec fn is_new_game(
        self,
        id: u64,
        red: u64,
        blue: u64,
        award: AwardState,
        now: u64,
    ) -> bool {
        &&& self.id == id
        &&& self.red == red
        &&& self.blue == blue
        &&& self.board@ == empty_board()
        &&& self.last_turn == now
        &&& self.next_player == opening_slot(id)
        &&& self.board_state == BoardState::Running
        &&& self.award == award
    }

    /// Why `sender` may not drop a stone into `column` now, if there is a reason.
    pub open spec fn move_error(self, sender: u64, column: int) -> Option<Error> {
        if self.board_state != BoardState::Running {
            Some(Error::NotRunning)
        } else if sender != self.player(self.next_player) {
            Some(Error::NotPlayerTurn)
        } else if !(0 <= column < 7) {
            Some(Error::InvalidColumn)
        } else if landing_row(self.board@, column) >= 6 {
            Some(Error::ColumnFull)
        } else {
            None
        }
    }

    /// `next` is this game after `sender` dropped a stone into `column` at `now`:
    /// the stone of the role at turn lands, the game is won, drawn or goes on, and
    /// only a game that goes on passes the turn and records the time.
    pub open spec fn moved_to(self, sender: u64, column: int, now: u64, next: BoardStruct) -> bool {
        let b = drop_stone(self.board@, column, self.next_player);
        let st = outcome(b, self.next_player, sender);
        &&& next.board@ == b
        &&& next.board_state == st
        &&& next.next_player == (if st == BoardState::Running {
            self.next_player.opponent()
        } else {
            self.next_player
        })
        &&& next.last_turn == (if st == BoardState::Running {
            now
        } else {
            self.last_turn
        })
        &&& next.id == self.id
        &&& next.red == self.red
        &&& next.blue == self.blue
        &&& next.award == self.award
    }

    /// Opens game `id` between `red` and `blue` at `now` on the empty board.
    pub fn new(id: u64, red: u64, blue: u64, award: AwardState, now: u64) -> (r: BoardStruct)
        ensures
            r.is_new_game(id, red, blue, award, now),
    {
        BoardStruct {
            id,
            red,
            blue,
            board: Board::new(),
            last_turn: now,
            next_player: starting_slot(id),
            board_state: BoardState::Running,
            award,
        }
    }

    /// The account that plays role `s`.
    pub fn player_of(&self, s: Slot) -> (r: u64)
        ensures
            r == self.player(s),
    {
        match s {
            Slot::First => self.red,
            Slot::Second => self.blue,
        }
    }

    /// `sender` drops a stone into `column`. It is refused unless the game runs, it
    /// is `sender`'s turn, and the column exists and is not full; a refused move
    /// changes nothing. Returns where the game stands afterwards.
    pub fn apply_move(&mut self, sender: u64, column: u8, now: u64) -> (r: Result<
        BoardState,
        Error,
    >)
        ensures
            r is Ok <==> old(self).move_error(sender, column as int) is None,
            r matches Err(e) ==> old(self).move_error(sender, column as int) == Some(e)
                && *final(self) == *old(self),
            r matches Ok(st) ==> old(self).moved_to(sender, column as int, now, *final(self))
                && st == final(self).board_state,
            old(self).wf() && r is Ok ==> legal_board(final(self).board@) && final(self).red
                != final(self).blue,
    {
        if self.board_state != BoardState::Running {
            return Err(Error::NotRunning);
        }
        let slot = self.next_player;
        if sender != self.player_of(slot) {
            return Err(Error::NotPlayerTurn);
        }
        if column >= 7 {
            return Err(Error::InvalidColumn);
        }
        let ghost before = self.board@;
        let ghost old_board = self.board;
        match self.board.add_stone(column as usize, slot) {
            Err(e) => {
                assert(self.board.cells =~= old_board.cells);
                return Err(e);
            },
            Ok(_) => {},
        }
        proof {
            if legal_board(before) {
                lemma_drop_keeps_no_gaps(before, column as int, slot);
            }
        }
        if self.board.evaluate(slot) {
            self.board_state = BoardState::Finished(Some(sender));
        } else if self.board.full() {
            self.board_state = BoardState::Finished(None);
        } else {
            self.next_player = slot.other();
            self.last_turn = now;
        }
        Ok(self.board_state)
    }
}

/// Two moves accepted one after the other in a game that is still running after
/// the first are made by the two different roles, hence by the two different
/// accounts.
pub proof fn lemma_turns_alternate(
    s0: BoardStruct,
    s1: BoardStruct,
    a0: u64,
    c0: int,
    t0: u64,
    a1: u64,
    c1: int,
)
    requires
        s0.wf(),
        s0.move_error(a0, c0) is None,
        s0.moved_to(a0, c0, t0, s1),
        s1.move_error(a1, c1) is None,
    ensures
        s1.next_player == s0.next_player.opponent(),
        a0 == s0.player(s0.next_player),
        a1 == s0.player(s0.next_player.opponent()),
        a1 != a0,
{
}

} // verus!
