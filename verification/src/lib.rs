//! A game lobby: chat rooms, users and tic-tac-toe games.
//!
//! The library keeps the rules of the lobby: the tables it stores and the
//! queries and updates on them (`db`), the rules of tic-tac-toe
//! (`tictactoe`), the registry of connected sessions and chat rooms
//! (`server`) and the decisions a websocket session takes on each chat
//! message (`session`).
use vstd::prelude::*;

pub mod models;
pub mod tictactoe;
pub mod seqs;
pub mod fresh;
pub mod decimal;
pub mod db;
pub mod server;
pub mod session;

verus! {

} // verus!
