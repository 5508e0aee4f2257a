//! A Connect-Four game engine with matchmaking, challenges and a score ledger.
//!
//! The board model lives in [`board`], one running game in [`session`], and the
//! whole state store with its matchmaking, challenge and settlement rules in
//! [`pallet`].
pub mod board;
pub mod error;
pub mod session;
pub mod pallet;

pub use board::{Board, Cell, Slot};
pub use error::Error;
pub use pallet::{Event, NonceDefault, Pallet, QueueEntry};
pub use session::{starting_slot, AwardState, BoardState, BoardStruct};
