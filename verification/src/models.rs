//! The records of the lobby.
//!
//! Each record is a row of one of the lobby's tables, or a request or a
//! reply that carries rows. Text fields are compared by their views
//! (`Seq<char>`); `copy` gives a value equal to the original.
use vstd::prelude::*;

verus! {

/// Copies an optional string.
pub fn copy_opt(o: &Option<String>) -> (r: Option<String>)
    ensures
        r == *o,
{
    match o {
        Some(s) => Some(s.clone()),
        None => None,
    }
}

/// The view of an optional string.
pub open spec fn opt_view(o: Option<String>) -> Option<Seq<char>> {
    match o {
        Some(s) => Some(s@),
        None => None,
    }
}

/// A registered user; `web_socket_session` is the id of the websocket
/// session the user is connected with, written in decimal ("0" before any).
#[derive(Clone, Debug, PartialEq, Eq)]
pub struct User {
    pub id: String,
    pub username: String,
    pub phone: String,
    pub web_socket_session: String,
    pub created_at: String,
}

impl User {
    pub fn copy(&self) -> (r: User)
        ensures
            r == *self,
    {
        User {
            id: self.id.clone(),
            username: self.username.clone(),
            phone: self.phone.clone(),
            web_socket_session: self.web_socket_session.clone(),
            created_at: self.created_at.clone(),
        }
    }
}

/// A chat message posted in a room.
#[derive(Clone, Debug, PartialEq, Eq)]
pub struct Message {
    pub id: String,
    pub room_id: String,
    pub user_id: String,
    pub content: String,
    pub created_at: String,
}

impl Message {
    pub fn copy(&self) -> (r: Message)
        ensures
            r == *self,
    {
        Message {
            id: self.id.clone(),
            room_id: self.room_id.clone(),
            user_id: self.user_id.clone(),
            content: self.content.clone(),
            created_at: self.created_at.clone(),
        }
    }
}

/// A message as a client submits it.
#[derive(Clone, Debug, PartialEq, Eq)]
pub struct NewMessage {
    pub room_id: String,
    pub user_id: String,
    pub content: String,
}

/// A chat room; `game` names the game played in it, if any.
#[derive(Clone, Debug, PartialEq, Eq)]
pub struct Room {
    pub id: String,
    pub name: String,
    pub created_at: String,
    pub game: Option<String>,
}

impl Room {
    pub fn copy(&self) -> (r: Room)
        ensures
            r == *self,
    {
        Room {
            id: self.id.clone(),
            name: self.name.clone(),
            created_at: self.created_at.clone(),
            game: copy_opt(&self.game),
        }
    }

    /// Two rooms are the same when all their fields read the same.
    pub open spec fn same(self, other: Room) -> bool {
        &&& self.id@ == other.id@
        &&& self.name@ == other.name@
        &&& self.created_at@ == other.created_at@
        &&& opt_view(self.game) == opt_view(other.game)
    }

    /// Whether two rooms read the same in every field.
    pub fn same_as(&self, other: &Room) -> (r: bool)
        ensures
            r == self.same(*other),
    {
        let g = match (&self.game, &other.game) {
            (Some(a), Some(b)) => *a == *b,
            (None, None) => true,
            _ => false,
        };
        self.id == other.id && self.name == other.name && self.created_at == other.created_at && g
    }
}

/// A registration request.
#[derive(Clone, Debug, PartialEq, Eq)]
pub struct NewUser {
    pub username: String,
    pub phone: String,
}

/// A request to start a conversation in a room.
#[derive(Clone, Debug, PartialEq, Eq)]
pub struct NewConversation {
    pub user_id: String,
    pub room_id: String,
    pub message: String,
}

/// A room together with the users in it.
#[derive(Clone, Debug, PartialEq, Eq)]
pub struct RoomResponse {
    pub room: Room,
    pub users: Vec<User>,
}

/// What a client is shown of a room.
#[derive(Clone, Debug, PartialEq, Eq)]
pub struct RoomData {
    pub users: Vec<User>,
    pub messages: Vec<DisplayMessage>,
    pub games: Vec<TicTacToeGame>,
}

/// A request to put a user in a room.
#[derive(Clone, Debug, PartialEq, Eq)]
pub struct NewRoomToUser {
    pub room: String,
    pub user: String,
}

/// The row that says that a user is in a room.
#[derive(Clone, Debug, PartialEq, Eq)]
pub struct RoomToUser {
    pub id: String,
    pub room: String,
    pub user: String,
}

impl RoomToUser {
    pub fn copy(&self) -> (r: RoomToUser)
        ensures
            r == *self,
    {
        RoomToUser { id: self.id.clone(), room: self.room.clone(), user: self.user.clone() }
    }
}

/// A message as it is shown: its text and the name of its author.
#[derive(Clone, Debug, PartialEq, Eq)]
pub struct DisplayMessage {
    pub content: String,
    pub username: String,
}

/// A game of tic-tac-toe: its players, whose turn it is, and its status
/// ("Active", "player_1_won", "player_2_won" or "draw").
#[derive(Clone, Debug, PartialEq, Eq)]
pub struct TicTacToeGame {
    pub id: String,
    pub player_1: String,
    pub player_2: Option<String>,
    pub turn: Option<String>,
    pub game_status: String,
    pub created_at: String,
}

impl TicTacToeGame {
    pub fn copy(&self) -> (r: TicTacToeGame)
        ensures
            r == *self,
    {
        TicTacToeGame {
            id: self.id.clone(),
            player_1: self.player_1.clone(),
            player_2: copy_opt(&self.player_2),
            turn: copy_opt(&self.turn),
            game_status: self.game_status.clone(),
            created_at: self.created_at.clone(),
        }
    }
}

/// A move as a client submits it: a player marks a square of a game.
#[derive(Clone, Debug, PartialEq, Eq)]
pub struct NewTicTacToeMove {
    pub player_id: String,
    pub game_id: String,
    pub row_number: i32,
    pub column_number: i32,
}

impl NewTicTacToeMove {
    pub fn copy(&self) -> (r: NewTicTacToeMove)
        ensures
            r == *self,
    {
        NewTicTacToeMove {
            player_id: self.player_id.clone(),
            game_id: self.game_id.clone(),
            row_number: self.row_number,
            column_number: self.column_number,
        }
    }
}

/// A move that was played.
#[derive(Clone, Debug, PartialEq, Eq)]
pub struct TicTacToeMove {
    pub id: String,
    pub player_id: String,
    pub game_id: String,
    pub row_number: i32,
    pub column_number: i32,
    pub created_at: String,
}

impl TicTacToeMove {
    pub fn copy(&self) -> (r: TicTacToeMove)
        ensures
            r == *self,
    {
        TicTacToeMove {
            id: self.id.clone(),
            player_id: self.player_id.clone(),
            game_id: self.game_id.clone(),
            row_number: self.row_number,
            column_number: self.column_number,
            created_at: self.created_at.clone(),
        }
    }
}

/// What the players of a game are told after a move.
#[derive(Clone, Debug, PartialEq, Eq)]
pub struct TicTacToeInfo {
    pub game_status: String,
    pub last_move: TicTacToeMove,
    pub turn: String,
}

} // verus!
