//! What a websocket session does with each chat message it receives.
//!
//! A client sends chat messages of several kinds. The session reads or
//! updates the lobby's tables and asks the chat server to pass messages on
//! to a room of the lobby or to a game. The session is known by its number
//! `id`; its user is the user whose stored session text is that number in
//! decimal.
use vstd::prelude::*;
use vstd::string::*;
use crate::db::{
    by_key, has_key, has_membership, holds_uuid_key, keeps_moves, joined, marks_of, not_membership, next_turn, of_user, on_square,
    squares_distinct, status_set, turn_set, user_by_ws, won_status, Store, Table,
};
use crate::decimal::{decimal, usize_to_decimal};
use crate::fresh::{is_utc_rfc3339_text, is_v4_uuid_text};
use crate::models::{
    Message, NewTicTacToeMove, RoomToUser, TicTacToeGame, TicTacToeInfo, TicTacToeMove, User,
};
use crate::seqs::{first, lemma_first_map_values};
use crate::tictactoe::{has_line_of_three, marks_on_board, on_board};

verus! {

/// The kinds of chat message.
#[derive(Clone, Debug, PartialEq, Eq)]
pub enum ChatType {
    TYPING,
    TEXT,
    JOIN,
    LEAVE,
    CONNECT,
    DISCONNECT,
    CREATEGAME,
    MOVE,
    JOINGAME,
    GAMEOVER,
}

/// A chat message as clients and sessions exchange it.
#[derive(Clone, Debug, PartialEq, Eq)]
pub struct ChatMessage {
    pub chat_type: ChatType,
    pub value: String,
    pub user_id: String,
}

/// A websocket session: its number, its server room and its name.
#[derive(Clone, Debug, PartialEq, Eq)]
pub struct WsChatSession {
    pub id: usize,
    pub room: String,
    pub name: Option<String>,
}

/// What a received chat message asks for, its value read.
#[derive(Clone, Debug, PartialEq, Eq)]
pub enum ChatRequest {
    /// Post `content` (the value, a display message, gives it).
    Text { content: String },
    /// Move to room `room` of the lobby.
    Join { room: String },
    /// Leave (nothing is done).
    Leave,
    /// Open a game of tic-tac-toe.
    CreateGame,
    /// Become the second player of game `game`.
    JoinGame { game: String },
    /// Play a move.
    Move { new_move: NewTicTacToeMove },
    /// Any other kind: nothing is done.
    Other,
}

/// What the session asks the server to pass on.
#[derive(Clone, Debug, PartialEq, Eq)]
pub enum Payload {
    /// The received chat message itself.
    Echo,
    /// A `LEAVE` message: `username` has left.
    Left { username: String, user_id: String },
    /// A `JOIN` message: `user` has joined.
    Joined { user: User },
    /// A `CREATEGAME` message: `game` was opened by `user_id`.
    GameCreated { game: TicTacToeGame, user_id: String },
    /// A `JOINGAME` message: `user_id` joined game `game_id`.
    GameJoined { game_id: String, user_id: String },
    /// A `MOVE` message: the move and the state of its game.
    Moved { info: TicTacToeInfo, user_id: String },
}

/// A message for the server: from session `id`, to a room of the lobby or
/// to a game.
#[derive(Clone, Debug, PartialEq, Eq)]
pub struct Outbound {
    pub id: usize,
    pub payload: Payload,
    pub room: Option<String>,
    pub game: Option<String>,
}

/// What handling a chat message leads to: the messages for the server, in
/// order, and whether a fault stopped the session (the actor must then
/// panic, after the tables were changed as stated).
#[derive(Clone, Debug, PartialEq, Eq)]
pub struct SessionOutcome {
    pub sent: Vec<Outbound>,
    pub fault: bool,
}

/// Nothing was sent and no fault arose.
pub open spec fn quiet(r: SessionOutcome) -> bool {
    r.sent@.len() == 0 && !r.fault
}

/// A fault arose before anything was sent.
pub open spec fn halted(r: SessionOutcome) -> bool {
    r.sent@.len() == 0 && r.fault
}

/// The messages table `after` is `before` with one new message posted by
/// `user` in `room` with text `content`; or it is `before` unchanged, which
/// happens only when `before` holds a key in the form of a random id (the
/// fresh id was taken).
pub open spec fn posted(before: Seq<Message>, after: Seq<Message>, room: String, user: String, content: String) -> bool {
    ||| after == before && holds_uuid_key(before)
    ||| exists|m: Message|
        {
            &&& m.room_id == room
            &&& m.user_id == user
            &&& m.content == content
            &&& is_v4_uuid_text(m.id@)
            &&& is_utc_rfc3339_text(m.created_at@)
            &&& !has_key(before, m.id@)
            &&& after == before.push(m)
        }
}

/// The memberships `after` are `before` with user `user` put in room
/// `room`: unchanged when a membership already does it, else one new
/// membership with a fresh id; or unchanged, which happens only when
/// `before` holds a key in the form of a random id (the fresh id was taken).
pub open spec fn entered(before: Seq<RoomToUser>, after: Seq<RoomToUser>, room: Seq<char>, user: Seq<char>) -> bool {
    if has_membership(before, room, user) {
        after == before
    } else {
        ||| after == before && holds_uuid_key(before)
        ||| exists|row: RoomToUser|
            {
                &&& row.room@ == room
                &&& row.user@ == user
                &&& is_v4_uuid_text(row.id@)
                &&& !has_key(before, row.id@)
                &&& after == before.push(row)
            }
    }
}

/// A `TEXT` message with `content` from session `sid`: the message is
/// posted in the room of the user's first membership and echoed to that
/// room. Faults when the user or the membership is missing (nothing done),
/// or when the room is not stored (after posting).
pub open spec fn text_outcome(before: Store, after: Store, sid: usize, content: String, r: SessionOutcome) -> bool {
    let ws = decimal(sid as nat);
    match user_by_ws(before.users@, ws) {
        None => halted(r) && after.same_rows(before),
        Some(u) => match first(before.room_to_users@, of_user(u.id@)) {
            None => halted(r) && after.same_rows(before),
            Some(d) => {
                &&& after.agrees_except(before, Table::Messages)
                &&& posted(before.messages@, after.messages@, d.room, u.id, content)
                &&& match by_key(before.rooms@, d.room@) {
                    None => halted(r),
                    Some(room) => !r.fault && r.sent@ == seq![
                        Outbound { id: sid, payload: Payload::Echo, room: Some(room.id), game: None },
                    ],
                }
            },
        },
    }
}

/// A `JOIN` message for room `room` from session `sid`: when the user is
/// already in that room nothing happens; else the user leaves the current
/// room (told with a `LEAVE` message), enters the new one, and the new room
/// is told with a `JOIN` message. Faults when the user or the current room
/// cannot be looked up (nothing done).
pub open spec fn join_outcome(before: Store, after: Store, sid: usize, room: String, r: SessionOutcome) -> bool {
    let ws = decimal(sid as nat);
    if !before.current_room_known(ws) {
        halted(r) && after.same_rows(before)
    } else {
        let u = user_by_ws(before.users@, ws).unwrap();
        match before.current_room_of(ws) {
            Some(current) => if current.id@ == room@ {
                quiet(r) && after.same_rows(before)
            } else {
                &&& after.agrees_except(before, Table::RoomToUsers)
                &&& entered(
                    before.room_to_users@.filter(not_membership(current.id@, u.id@)),
                    after.room_to_users@,
                    room@,
                    u.id@,
                )
                &&& !r.fault
                &&& r.sent@ == seq![
                    Outbound {
                        id: sid,
                        payload: Payload::Left { username: u.username, user_id: u.id },
                        room: Some(current.id),
                        game: None,
                    },
                    Outbound { id: sid, payload: Payload::Joined { user: u }, room: Some(room), game: None },
                ]
            },
            None => {
                &&& after.agrees_except(before, Table::RoomToUsers)
                &&& entered(before.room_to_users@, after.room_to_users@, room@, u.id@)
                &&& !r.fault
                &&& r.sent@ == seq![
                    Outbound { id: sid, payload: Payload::Joined { user: u }, room: Some(room), game: None },
                ]
            },
        }
    }
}

/// A `CREATEGAME` message from session `sid`: a game is opened by the user
/// and announced to the user's current room, from session 0 so that the
/// sender hears it too. Faults when the user is missing (nothing done),
/// when the fresh game id is taken (nothing done; possible only when a
/// stored game id has the form of a random id), or when the current room
/// cannot be found (after opening the game).
pub open spec fn create_game_outcome(before: Store, after: Store, sid: usize, r: SessionOutcome) -> bool {
    let ws = decimal(sid as nat);
    match user_by_ws(before.users@, ws) {
        None => halted(r) && after.same_rows(before),
        Some(u) => {
            ||| halted(r) && after.same_rows(before) && holds_uuid_key(before.tic_tac_toe_games@)
            ||| exists|g: TicTacToeGame|
                {
                    &&& g.player_1 == u.id
                    &&& g.player_2 is None
                    &&& g.turn is None
                    &&& g.game_status@ == "Active"@
                    &&& is_v4_uuid_text(g.id@)
                    &&& is_utc_rfc3339_text(g.created_at@)
                    &&& !has_key(before.tic_tac_toe_games@, g.id@)
                    &&& after.tic_tac_toe_games@ == before.tic_tac_toe_games@.push(g)
                    &&& after.agrees_except(before, Table::Games)
                    &&& if before.current_room_known(ws) && before.current_room_of(ws) is Some {
                        &&& !r.fault
                        &&& r.sent@ == seq![
                            Outbound {
                                id: 0,
                                payload: Payload::GameCreated { game: g, user_id: u.id },
                                room: Some(before.current_room_of(ws).unwrap().id),
                                game: None,
                            },
                        ]
                    } else {
                        halted(r)
                    }
                }
        },
    }
}

/// A `JOINGAME` message for game `game` from session `sid`: the user
/// becomes the game's second player and gets the turn, and the game is
/// told. Faults when the user is missing (nothing done).
pub open spec fn join_game_outcome(before: Store, after: Store, sid: usize, game: String, r: SessionOutcome) -> bool {
    let ws = decimal(sid as nat);
    match user_by_ws(before.users@, ws) {
        None => halted(r) && after.same_rows(before),
        Some(u) => {
            &&& after.agrees_except(before, Table::Games)
            &&& after.tic_tac_toe_games@.len() == before.tic_tac_toe_games@.len()
            &&& forall|i: int|
                0 <= i < before.tic_tac_toe_games@.len() ==> if before.tic_tac_toe_games@[i].id@ == game@ {
                    joined(#[trigger] after.tic_tac_toe_games@[i], before.tic_tac_toe_games@[i], u.id@)
                } else {
                    after.tic_tac_toe_games@[i] == before.tic_tac_toe_games@[i]
                }
            &&& !r.fault
            &&& r.sent@ == seq![
                Outbound {
                    id: sid,
                    payload: Payload::GameJoined { game_id: game, user_id: u.id },
                    room: None,
                    game: Some(game),
                },
            ]
        },
    }
}

/// Move `m` was recorded for the requested move `mv`.
pub open spec fn recorded(m: TicTacToeMove, mv: NewTicTacToeMove, before: Seq<TicTacToeMove>) -> bool {
    &&& m.player_id == mv.player_id
    &&& m.game_id == mv.game_id
    &&& m.row_number == mv.row_number
    &&& m.column_number == mv.column_number
    &&& is_v4_uuid_text(m.id@)
    &&& is_utc_rfc3339_text(m.created_at@)
    &&& !has_key(before, m.id@)
}

/// The game status carried by the first message sent, if it is a `MOVE`.
pub open spec fn moved_status(r: SessionOutcome) -> String {
    r.sent@[0].payload->info.game_status
}

/// The status `status` settles game `game` after player `player` moved,
/// with the player's marks `marks`; `games` are the games before settling,
/// `after` the games after.
pub open spec fn settled(
    games: Seq<TicTacToeGame>,
    after: Seq<TicTacToeGame>,
    marks: Seq<(i32, i32)>,
    game: Seq<char>,
    player: Seq<char>,
    status: String,
) -> bool {
    if has_line_of_three(marks) {
        &&& status@ == won_status(by_key(games, game).unwrap(), player)
        &&& after == games.map_values(status_set(game, status))
    } else if marks.len() == 5 {
        &&& status@ == "draw"@
        &&& after == games.map_values(status_set(game, status))
    } else {
        &&& status@ == "Active"@
        &&& after == games
    }
}

/// A `MOVE` message with move `mv` from session `sid`. Nothing happens
/// unless it is the user's turn in the move's game, the square is free and
/// the game is "Active". Then the move is recorded, the turn passes, the
/// game is settled and the game is told. Faults when the user or the game
/// is missing, or the fresh move id is taken, which is possible only when a
/// stored move id has the form of a random id (all with nothing done); when
/// the mover is the first player of a game with no second player (after
/// recording the move, there being no one to pass the turn to); or when a
/// mark of the mover lies off the board (after recording the move and
/// passing the turn).
pub open spec fn move_outcome(before: Store, after: Store, sid: usize, mv: NewTicTacToeMove, r: SessionOutcome) -> bool {
    let ws = decimal(sid as nat);
    let gid = mv.game_id@;
    let pid = mv.player_id@;
    match user_by_ws(before.users@, ws) {
        None => halted(r) && after.same_rows(before),
        Some(u) => match by_key(before.tic_tac_toe_games@, gid) {
            None => halted(r) && after.same_rows(before),
            Some(g0) => if !(match g0.turn {
                Some(t) => t@ == u.id@,
                None => false,
            }) {
                quiet(r) && after.same_rows(before)
            } else if exists|i: int|
                0 <= i < before.tic_tac_toe_moves@.len() && #[trigger] on_square(gid, mv.row_number, mv.column_number)(
                    before.tic_tac_toe_moves@[i],
                ) {
                quiet(r) && after.same_rows(before)
            } else if g0.game_status@ != "Active"@ {
                quiet(r) && after.same_rows(before)
            } else if pid == g0.player_1@ && g0.player_2 is None {
                &&& halted(r)
                &&& after.agrees_except(before, Table::Moves)
                &&& {
                    ||| after.tic_tac_toe_moves@ == before.tic_tac_toe_moves@ && holds_uuid_key(before.tic_tac_toe_moves@)
                    ||| exists|m: TicTacToeMove|
                        #[trigger] recorded(m, mv, before.tic_tac_toe_moves@)
                            && after.tic_tac_toe_moves@ == before.tic_tac_toe_moves@.push(m)
                }
            } else {
                ||| halted(r) && after.same_rows(before) && holds_uuid_key(before.tic_tac_toe_moves@)
                ||| exists|m: TicTacToeMove|
                    {
                        let turned = before.tic_tac_toe_games@.map_values(turn_set(gid, next_turn(g0, pid)));
                        let marks = marks_of(after.tic_tac_toe_moves@, gid, pid);
                        let status = moved_status(r);
                        &&& #[trigger] recorded(m, mv, before.tic_tac_toe_moves@)
                        &&& after.tic_tac_toe_moves@ == before.tic_tac_toe_moves@.push(m)
                        &&& after.users@ == before.users@
                        &&& after.rooms@ == before.rooms@
                        &&& after.room_to_users@ == before.room_to_users@
                        &&& after.messages@ == before.messages@
                        &&& if !on_board(marks) {
                            &&& halted(r)
                            &&& after.tic_tac_toe_games@ == turned
                        } else {
                            &&& settled(turned, after.tic_tac_toe_games@, marks, gid, pid, status)
                            &&& !r.fault
                            &&& r.sent@ == seq![
                                Outbound {
                                    id: sid,
                                    payload: Payload::Moved {
                                        info: TicTacToeInfo { game_status: status, last_move: m, turn: next_turn(g0, pid) },
                                        user_id: u.id,
                                    },
                                    room: None,
                                    game: Some(m.game_id),
                                },
                            ]
                        }
                    }
            },
        },
    }
}

/// What handling `request` from session `sid` does.
pub open spec fn session_outcome(before: Store, after: Store, sid: usize, request: ChatRequest, r: SessionOutcome) -> bool {
    match request {
        ChatRequest::Text { content } => text_outcome(before, after, sid, content, r),
        ChatRequest::Join { room } => join_outcome(before, after, sid, room, r),
        ChatRequest::CreateGame => create_game_outcome(before, after, sid, r),
        ChatRequest::JoinGame { game } => join_game_outcome(before, after, sid, game, r),
        ChatRequest::Move { new_move } => move_outcome(before, after, sid, new_move, r),
        _ => quiet(r) && after.same_rows(before),
    }
}

/// A recorded move lands on a square that was free in its game, so the
/// moves of each game stay on distinct squares.
proof fn lemma_free_square_keeps_distinct(before: Seq<TicTacToeMove>, m: TicTacToeMove)
    requires
        squares_distinct(before),
        forall|i: int| 0 <= i < before.len() ==> !#[trigger] on_square(m.game_id@, m.row_number, m.column_number)(before[i]),
    ensures
        squares_distinct(before.push(m)),
{
    let after = before.push(m);
    assert forall|i: int, j: int|
        0 <= i < j < after.len() && #[trigger] after[i].game_id@ == #[trigger] after[j].game_id@ implies (
        after[i].row_number, after[i].column_number) != (after[j].row_number, after[j].column_number) by {
        if j == before.len() {
            assert(after[i] == before[i]);
            assert(!on_square(m.game_id@, m.row_number, m.column_number)(before[i]));
        } else {
            assert(after[i] == before[i] && after[j] == before[j]);
        }
    }
}

/// No chat message puts two moves of a game on one square: whatever a
/// session does with a request, the moves of each game stay on distinct
/// squares.
pub proof fn lemma_session_keeps_squares_distinct(
    before: Store,
    after: Store,
    sid: usize,
    request: ChatRequest,
    r: SessionOutcome,
)
    requires
        squares_distinct(before.tic_tac_toe_moves@),
        session_outcome(before, after, sid, request, r),
    ensures
        squares_distinct(after.tic_tac_toe_moves@),
{
    if after.tic_tac_toe_moves@ != before.tic_tac_toe_moves@ {
        match request {
            ChatRequest::Move { new_move } => {
                let m = choose|m: TicTacToeMove|
                    #[trigger] recorded(m, new_move, before.tic_tac_toe_moves@)
                        && after.tic_tac_toe_moves@ == before.tic_tac_toe_moves@.push(m);
                lemma_free_square_keeps_distinct(before.tic_tac_toe_moves@, m);
            },
            _ => {},
        }
    }
}

/// A full board with no line is a draw: when a `MOVE` is accepted and
/// reported, and the mover's marks in the game then number five and cover
/// no line, the status reported with the move and the game's stored status
/// are both "draw".
pub proof fn lemma_full_board_without_line_is_a_draw(
    before: Store,
    after: Store,
    sid: usize,
    mv: NewTicTacToeMove,
    r: SessionOutcome,
)
    requires
        move_outcome(before, after, sid, mv, r),
        r.sent@.len() == 1,
        marks_of(after.tic_tac_toe_moves@, mv.game_id@, mv.player_id@).len() == 5,
        !has_line_of_three(marks_of(after.tic_tac_toe_moves@, mv.game_id@, mv.player_id@)),
    ensures
        r.sent@[0].payload is Moved,
        r.sent@[0].payload->info.game_status@ == "draw"@,
        by_key(after.tic_tac_toe_games@, mv.game_id@) is Some,
        by_key(after.tic_tac_toe_games@, mv.game_id@).unwrap().game_status@ == "draw"@,
{
    let gid = mv.game_id@;
    let pid = mv.player_id@;
    let g0 = by_key(before.tic_tac_toe_games@, gid).unwrap();
    let m = choose|m: TicTacToeMove|
        #[trigger] recorded(m, mv, before.tic_tac_toe_moves@)
            && after.tic_tac_toe_moves@ == before.tic_tac_toe_moves@.push(m);
    let turned = before.tic_tac_toe_games@.map_values(turn_set(gid, next_turn(g0, pid)));
    let status = moved_status(r);
    assert(after.tic_tac_toe_games@ == turned.map_values(status_set(gid, status)));
    lemma_first_map_values(
        before.tic_tac_toe_games@,
        crate::db::key_is::<TicTacToeGame>(gid),
        crate::db::key_is::<TicTacToeGame>(gid),
        turn_set(gid, next_turn(g0, pid)),
    );
    lemma_first_map_values(
        turned,
        crate::db::key_is::<TicTacToeGame>(gid),
        crate::db::key_is::<TicTacToeGame>(gid),
        status_set(gid, status),
    );
}

/// A new game is announced to its creator's room: when the creator's room
/// is known and no stored game id has the form of a random id, a
/// `CREATEGAME` opens one game and sends exactly one message, from session
/// 0 to that room and to no game, carrying the game just stored.
pub proof fn lemma_new_game_is_announced_to_the_creators_room(before: Store, after: Store, sid: usize, r: SessionOutcome)
    requires
        create_game_outcome(before, after, sid, r),
        before.current_room_known(decimal(sid as nat)),
        before.current_room_of(decimal(sid as nat)) is Some,
        !holds_uuid_key(before.tic_tac_toe_games@),
    ensures
        !r.fault,
        r.sent@.len() == 1,
        r.sent@[0].id == 0,
        r.sent@[0].room == Some(before.current_room_of(decimal(sid as nat)).unwrap().id),
        r.sent@[0].game is None,
        r.sent@[0].payload is GameCreated,
        after.tic_tac_toe_games@.len() == before.tic_tac_toe_games@.len() + 1,
        r.sent@[0].payload->game == after.tic_tac_toe_games@.last(),
{
    let g = choose|g: TicTacToeGame|
        {
            &&& g.player_1 == user_by_ws(before.users@, decimal(sid as nat)).unwrap().id
            &&& g.player_2 is None
            &&& g.turn is None
            &&& g.game_status@ == "Active"@
            &&& is_v4_uuid_text(g.id@)
            &&& is_utc_rfc3339_text(g.created_at@)
            &&& !has_key(before.tic_tac_toe_games@, g.id@)
            &&& after.tic_tac_toe_games@ == before.tic_tac_toe_games@.push(g)
            &&& after.agrees_except(before, Table::Games)
            &&& if before.current_room_known(decimal(sid as nat)) && before.current_room_of(decimal(sid as nat)) is Some {
                &&& !r.fault
                &&& r.sent@ == seq![
                    Outbound {
                        id: 0,
                        payload: Payload::GameCreated { game: g, user_id: user_by_ws(before.users@, decimal(sid as nat)).unwrap().id },
                        room: Some(before.current_room_of(decimal(sid as nat)).unwrap().id),
                        game: None,
                    },
                ]
            } else {
                halted(r)
            }
        };
    assert(after.tic_tac_toe_games@.last() == g);
}

impl WsChatSession {
    /// Handles a `TEXT` message with text `content`.
    pub fn on_text(&self, store: &mut Store, content: String) -> (r: SessionOutcome)
        ensures
            text_outcome(*old(store), *final(store), self.id, content, r),
            keeps_moves(old(store).tic_tac_toe_moves@, final(store).tic_tac_toe_moves@),
            old(store).wf() ==> final(store).wf(),
    {
        let ws = usize_to_decimal(self.id);
        let current_user = match store.lookup_user_by_ws(&ws) {
            Some(u) => u,
            None => {
                return SessionOutcome { sent: Vec::new(), fault: true };
            },
        };
        let membership = match store.first_membership_of(&current_user.id) {
            Some(d) => d,
            None => {
                return SessionOutcome { sent: Vec::new(), fault: true };
            },
        };
        let ghost before = *store;
        let posted_result = store.insert_new_message(ws.clone(), content);
        proof {
            match posted_result {
                Ok(m) => {
                    assert(posted(before.messages@, store.messages@, membership.room, current_user.id, content));
                },
                Err(_) => {},
            }
        }
        if !store.can_find_current_room(&ws) {
            return SessionOutcome { sent: Vec::new(), fault: true };
        }
        match store.get_current_room(ws) {
            Some(current_room) => {
                let mut sent: Vec<Outbound> = Vec::new();
                sent.push(Outbound { id: self.id, payload: Payload::Echo, room: Some(current_room.id), game: None });
                SessionOutcome { sent, fault: false }
            },
            None => {
                SessionOutcome { sent: Vec::new(), fault: true }
            },
        }
    }

    /// Handles a `JOIN` message for room `room`.
    pub fn on_join(&self, store: &mut Store, room: String) -> (r: SessionOutcome)
        ensures
            join_outcome(*old(store), *final(store), self.id, room, r),
            keeps_moves(old(store).tic_tac_toe_moves@, final(store).tic_tac_toe_moves@),
            old(store).wf() ==> final(store).wf(),
    {
        let ws = usize_to_decimal(self.id);
        if !store.can_find_current_room(&ws) {
            return SessionOutcome { sent: Vec::new(), fault: true };
        }
        let current_room = store.get_current_room(ws.clone());
        let current_user = store.find_user_by_ws(ws);
        let mut sent: Vec<Outbound> = Vec::new();
        let ghost before = *store;
        match current_room {
            Some(r) => {
                if r.id == room {
                    return SessionOutcome { sent, fault: false };
                }
                sent.push(
                    Outbound {
                        id: self.id,
                        payload: Payload::Left {
                            username: current_user.username.clone(),
                            user_id: current_user.id.clone(),
                        },
                        room: Some(r.id.clone()),
                        game: None,
                    },
                );
                store.leave_room(r.id.as_str(), current_user.id.as_str());
                let ghost left = *store;
                let joined = store.join_room(room.as_str(), current_user.id.as_str());
                proof {
                    match joined {
                        Ok(row) => {
                            if !has_membership(left.room_to_users@, room@, current_user.id@) {
                                assert(entered(left.room_to_users@, store.room_to_users@, room@, current_user.id@));
                            }
                        },
                        Err(_) => {},
                    }
                }
            },
            None => {
                let joined = store.join_room(room.as_str(), current_user.id.as_str());
                proof {
                    match joined {
                        Ok(row) => {
                            if !has_membership(before.room_to_users@, room@, current_user.id@) {
                                assert(entered(before.room_to_users@, store.room_to_users@, room@, current_user.id@));
                            }
                        },
                        Err(_) => {},
                    }
                }
            },
        }
        let ghost cu = current_user;
        let ghost cr = current_room;
        sent.push(Outbound { id: self.id, payload: Payload::Joined { user: current_user }, room: Some(room), game: None });
        let r = SessionOutcome { sent, fault: false };
        proof {
            let ws_ = decimal(self.id as nat);
            assert(before.current_room_known(ws_));
            let u = user_by_ws(before.users@, ws_).unwrap();
            assert(u == cu);
            assert(cr == before.current_room_of(ws_));
            match cr {
                Some(current) => {
                    assert(store.agrees_except(before, Table::RoomToUsers));
                    assert(entered(before.room_to_users@.filter(not_membership(current.id@, u.id@)), store.room_to_users@, room@, u.id@));
                    assert(r.sent@ =~= seq![
                        Outbound {
                            id: self.id,
                            payload: Payload::Left { username: u.username, user_id: u.id },
                            room: Some(current.id),
                            game: None,
                        },
                        Outbound { id: self.id, payload: Payload::Joined { user: u }, room: Some(room), game: None },
                    ]);
                },
                None => {
                    assert(store.agrees_except(before, Table::RoomToUsers));
                    assert(entered(before.room_to_users@, store.room_to_users@, room@, u.id@));
                },
            }
        }
        r
    }

    /// Handles a `CREATEGAME` message.
    pub fn on_create_game(&self, store: &mut Store) -> (r: SessionOutcome)
        ensures
            create_game_outcome(*old(store), *final(store), self.id, r),
            keeps_moves(old(store).tic_tac_toe_moves@, final(store).tic_tac_toe_moves@),
            old(store).wf() ==> final(store).wf(),
    {
        let ws = usize_to_decimal(self.id);
        let current_user = match store.lookup_user_by_ws(&ws) {
            Some(u) => u,
            None => {
                return SessionOutcome { sent: Vec::new(), fault: true };
            },
        };
        let ghost before = *store;
        let new_game = match store.create_tic_tac_toe(ws.clone()) {
            Ok(g) => g,
            Err(_) => {
                return SessionOutcome { sent: Vec::new(), fault: true };
            },
        };
        let ghost g = new_game;
        if !store.can_find_current_room(&ws) {
            let r = SessionOutcome { sent: Vec::new(), fault: true };
            assert(store.tic_tac_toe_games@ == before.tic_tac_toe_games@.push(g));
            return r;
        }
        match store.get_current_room(ws) {
            Some(current_room) => {
                let mut sent: Vec<Outbound> = Vec::new();
                sent.push(
                    Outbound {
                        id: 0,
                        payload: Payload::GameCreated { game: new_game, user_id: current_user.id },
                        room: Some(current_room.id),
                        game: None,
                    },
                );
                let r = SessionOutcome { sent, fault: false };
                assert(store.tic_tac_toe_games@ == before.tic_tac_toe_games@.push(g));
                r
            },
            None => {
                let r = SessionOutcome { sent: Vec::new(), fault: true };
                assert(store.tic_tac_toe_games@ == before.tic_tac_toe_games@.push(g));
                r
            },
        }
    }

    /// Handles a `JOINGAME` message for game `game`.
    pub fn on_join_game(&self, store: &mut Store, game: String) -> (r: SessionOutcome)
        ensures
            join_game_outcome(*old(store), *final(store), self.id, game, r),
            keeps_moves(old(store).tic_tac_toe_moves@, final(store).tic_tac_toe_moves@),
            old(store).wf() ==> final(store).wf(),
    {
        let ws = usize_to_decimal(self.id);
        let current_user = match store.lookup_user_by_ws(&ws) {
            Some(u) => u,
            None => {
                return SessionOutcome { sent: Vec::new(), fault: true };
            },
        };
        store.join_game(game.as_str(), current_user.id.as_str());
        let mut sent: Vec<Outbound> = Vec::new();
        sent.push(
            Outbound {
                id: self.id,
                payload: Payload::GameJoined { game_id: game.clone(), user_id: current_user.id },
                room: None,
                game: Some(game),
            },
        );
        SessionOutcome { sent, fault: false }
    }

    /// Handles a `MOVE` message with move `new_move`.
    pub fn on_move(&self, store: &mut Store, new_move: NewTicTacToeMove) -> (r: SessionOutcome)
        ensures
            move_outcome(*old(store), *final(store), self.id, new_move, r),
            keeps_moves(old(store).tic_tac_toe_moves@, final(store).tic_tac_toe_moves@),
            old(store).wf() ==> final(store).wf(),
    {
        let ws = usize_to_decimal(self.id);
        let current_user = match store.lookup_user_by_ws(&ws) {
            Some(u) => u,
            None => {
                return SessionOutcome { sent: Vec::new(), fault: true };
            },
        };
        let game_id = new_move.game_id.clone();
        let g0 = match store.find_game(&game_id) {
            Some(g) => g,
            None => {
                return SessionOutcome { sent: Vec::new(), fault: true };
            },
        };
        if !store.your_turn(game_id.clone(), current_user.id.clone()) {
            return SessionOutcome { sent: Vec::new(), fault: false };
        }
        if !store.legal_move(game_id.clone(), new_move.row_number, new_move.column_number) {
            return SessionOutcome { sent: Vec::new(), fault: false };
        }
        let old_game_status = store.get_game_result(game_id.clone());
        let active = String::from_str("Active");
        if old_game_status != active {
            return SessionOutcome { sent: Vec::new(), fault: false };
        }
        if new_move.player_id == g0.player_1 && g0.player_2.is_none() {
            let ghost before = *store;
            let recorded_move = store.record_move(&new_move);
            proof {
                match recorded_move {
                    Ok(m) => {
                        assert(recorded(m, new_move, before.tic_tac_toe_moves@));
                    },
                    Err(_) => {},
                }
            }
            return SessionOutcome { sent: Vec::new(), fault: true };
        }
        let ghost before = *store;
        let last_move = match store.insert_new_move(new_move.copy()) {
            Ok(m) => m,
            Err(_) => {
                return SessionOutcome { sent: Vec::new(), fault: true };
            },
        };
        let whos_turn = if new_move.player_id == g0.player_1 {
            match &g0.player_2 {
                Some(p) => p.clone(),
                None => {
                    assert(false);
                    String::new()
                },
            }
        } else {
            g0.player_1.clone()
        };
        let ghost turned = *store;
        let marks = store.collect_marks(&new_move.game_id, &new_move.player_id);
        if !marks_on_board(&marks) {
            let r = SessionOutcome { sent: Vec::new(), fault: true };
            assert(recorded(last_move, new_move, before.tic_tac_toe_moves@));
            return r;
        }
        proof {
            let f = turn_set(new_move.game_id@, next_turn(g0, new_move.player_id@));
            lemma_first_map_values(
                before.tic_tac_toe_games@,
                crate::db::key_is::<TicTacToeGame>(new_move.game_id@),
                crate::db::key_is::<TicTacToeGame>(new_move.game_id@),
                f,
            );
        }
        let ghost lm = last_move;
        let ghost cu = current_user;
        let ghost wt = whos_turn;
        let game_status = store.game_result(new_move.copy());
        let ghost gs = game_status;
        let info = TicTacToeInfo { game_status, last_move: last_move.copy(), turn: whos_turn };
        let mut sent: Vec<Outbound> = Vec::new();
        sent.push(
            Outbound {
                id: self.id,
                payload: Payload::Moved { info, user_id: current_user.id },
                room: None,
                game: Some(last_move.game_id),
            },
        );
        let r = SessionOutcome { sent, fault: false };
        proof {
            let ws_ = decimal(self.id as nat);
            let gid = new_move.game_id@;
            let pid = new_move.player_id@;
            let u = user_by_ws(before.users@, ws_).unwrap();
            assert(u == cu);
            let g = by_key(before.tic_tac_toe_games@, gid).unwrap();
            assert(g == g0);
            assert(wt == next_turn(g0, pid));
            assert(recorded(lm, new_move, before.tic_tac_toe_moves@));
            assert(store.tic_tac_toe_moves@ == before.tic_tac_toe_moves@.push(lm));
            let turned_games = before.tic_tac_toe_games@.map_values(turn_set(gid, next_turn(g0, pid)));
            assert(turned.tic_tac_toe_games@ == turned_games);
            let marks = marks_of(store.tic_tac_toe_moves@, gid, pid);
            assert(on_board(marks));
            assert(moved_status(r) == gs);
            assert(settled(turned_games, store.tic_tac_toe_games@, marks, gid, pid, gs));
            assert(r.sent@ =~= seq![
                Outbound {
                    id: self.id,
                    payload: Payload::Moved {
                        info: TicTacToeInfo { game_status: gs, last_move: lm, turn: next_turn(g0, pid) },
                        user_id: u.id,
                    },
                    room: None,
                    game: Some(lm.game_id),
                },
            ]);
        }
        r
    }

    /// Handles a received chat message, its value read into `request`.
    pub fn handle(&self, store: &mut Store, request: ChatRequest) -> (r: SessionOutcome)
        ensures
            session_outcome(*old(store), *final(store), self.id, request, r),
            keeps_moves(old(store).tic_tac_toe_moves@, final(store).tic_tac_toe_moves@),
            old(store).wf() ==> final(store).wf(),
    {
        match request {
            ChatRequest::Text { content } => self.on_text(store, content),
            ChatRequest::Join { room } => self.on_join(store, room),
            ChatRequest::CreateGame => self.on_create_game(store),
            ChatRequest::JoinGame { game } => self.on_join_game(store, game),
            ChatRequest::Move { new_move } => self.on_move(store, new_move),
            _ => SessionOutcome { sent: Vec::new(), fault: false },
        }
    }
}

} // verus!
