use vstd::prelude::*;

verus! {

/// Why a request was rejected. A rejected request changes no state.
#[derive(Clone, Copy, Debug, PartialEq, Eq, Structural)]
pub enum Error {
    /// The entry to remove (queue entry or challenge) does not exist.
    NotFound,
    /// The account already takes part in a running game.
    PlayerBoardExists,
    /// The account takes part in no running game.
    NoPlayerBoard,
    /// An account may not play against itself.
    NoFakePlay,
    /// It is the other player's turn.
    NotPlayerTurn,
    /// The game is no longer running.
    NotRunning,
    /// The column lies outside the board.
    InvalidColumn,
    /// The column has no empty cell left.
    ColumnFull,
    /// The account is already waiting in the match queue.
    AlreadyQueued,
    /// The target of a challenge is itself challenging, or a challenger tries to respond.
    WrongChallengeTurn,
    /// The account already has an outstanding challenge.
    ReChallengeError,
}

} // verus!
