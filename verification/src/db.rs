//! The lobby's tables and the queries and updates on them.
//!
//! A `Store` holds the six tables of the lobby as sequences of rows in the
//! order they were stored. Every table has a primary key, the row's `id`:
//! storing a row whose key is already in its table is refused. A query that
//! reads "the first" row reads the earliest stored one.
use vstd::prelude::*;
use vstd::string::*;
use crate::models::{
    copy_opt, opt_view, DisplayMessage, Message, NewTicTacToeMove, Room, RoomResponse, RoomToUser,
    TicTacToeGame, TicTacToeMove, User,
};
use crate::seqs::{first, lemma_filter_none, lemma_filter_single, lemma_filter_take_succ, lemma_first_at, lemma_first_none};
use crate::tictactoe::{covers_line, has_line_of_three, has_winning_line, lemma_win_is_a_full_line, on_board, Square};
use crate::fresh::{iso_date, is_utc_rfc3339_text, is_v4_uuid_text, new_uuid_text};

verus! {

/// Why the store refused an update.
#[derive(Clone, Copy, Debug, PartialEq, Eq)]
pub enum DbError {
    /// A row with the same primary key is already stored.
    DuplicateKey,
}

/// A row of a table: it has a primary key and can be copied.
pub trait Row: Sized {
    spec fn key(&self) -> Seq<char>;

    fn key_text(&self) -> (r: &String)
        ensures
            r@ == self.key(),
    ;

    fn copy_row(&self) -> (r: Self)
        ensures
            r == *self,
    ;
}

impl Row for User {
    open spec fn key(&self) -> Seq<char> {
        self.id@
    }

    fn key_text(&self) -> (r: &String) {
        &self.id
    }

    fn copy_row(&self) -> (r: Self) {
        self.copy()
    }
}

impl Row for Message {
    open spec fn key(&self) -> Seq<char> {
        self.id@
    }

    fn key_text(&self) -> (r: &String) {
        &self.id
    }

    fn copy_row(&self) -> (r: Self) {
        self.copy()
    }
}

impl Row for Room {
    open spec fn key(&self) -> Seq<char> {
        self.id@
    }

    fn key_text(&self) -> (r: &String) {
        &self.id
    }

    fn copy_row(&self) -> (r: Self) {
        self.copy()
    }
}

impl Row for RoomToUser {
    open spec fn key(&self) -> Seq<char> {
        self.id@
    }

    fn key_text(&self) -> (r: &String) {
        &self.id
    }

    fn copy_row(&self) -> (r: Self) {
        self.copy()
    }
}

impl Row for TicTacToeGame {
    open spec fn key(&self) -> Seq<char> {
        self.id@
    }

    fn key_text(&self) -> (r: &String) {
        &self.id
    }

    fn copy_row(&self) -> (r: Self) {
        self.copy()
    }
}

impl Row for TicTacToeMove {
    open spec fn key(&self) -> Seq<char> {
        self.id@
    }

    fn key_text(&self) -> (r: &String) {
        &self.id
    }

    fn copy_row(&self) -> (r: Self) {
        self.copy()
    }
}

/// No two rows of the table share a key.
pub open spec fn keys_distinct<T: Row>(s: Seq<T>) -> bool {
    forall|i: int, j: int| 0 <= i < j < s.len() ==> #[trigger] s[i].key() != #[trigger] s[j].key()
}

/// Some row of the table has key `k`.
pub open spec fn has_key<T: Row>(s: Seq<T>, k: Seq<char>) -> bool {
    exists|i: int| 0 <= i < s.len() && #[trigger] s[i].key() == k
}

/// Some row of the table has a key in the form of a random identifier: only
/// then can a freshly drawn identifier be taken already.
pub open spec fn holds_uuid_key<T: Row>(s: Seq<T>) -> bool {
    exists|i: int| 0 <= i < s.len() && is_v4_uuid_text(#[trigger] s[i].key())
}

/// The moves `after` keep every move of `before` in its place: moves are
/// only ever added at the end.
pub open spec fn keeps_moves(before: Seq<TicTacToeMove>, after: Seq<TicTacToeMove>) -> bool {
    &&& before.len() <= after.len()
    &&& forall|i: int| 0 <= i < before.len() ==> #[trigger] after[i] == before[i]
}

/// Some move of game `game` marks square (`row`, `col`).
pub open spec fn square_taken(moves: Seq<TicTacToeMove>, game: Seq<char>, row: i32, col: i32) -> bool {
    exists|i: int| 0 <= i < moves.len() && #[trigger] on_square(game, row, col)(moves[i])
}

/// It is user `user`'s turn in game `game`: the game's turn names the user.
pub open spec fn has_turn(games: Seq<TicTacToeGame>, game: Seq<char>, user: Seq<char>) -> bool {
    match by_key(games, game).unwrap().turn {
        Some(t) => t@ == user,
        None => false,
    }
}

/// Rows with key `k`, as a predicate.
pub open spec fn key_is<T: Row>(k: Seq<char>) -> spec_fn(T) -> bool {
    |r: T| r.key() == k
}

/// The first row with key `k`.
pub open spec fn by_key<T: Row>(s: Seq<T>, k: Seq<char>) -> Option<T> {
    first(s, key_is(k))
}

/// Whether the table holds a row with key `k`.
fn table_has_key<T: Row>(t: &Vec<T>, k: &String) -> (r: bool)
    ensures
        r == has_key(t@, k@),
{
    let mut i: usize = 0;
    while i < t.len()
        invariant
            i <= t.len(),
            forall|j: int| 0 <= j < i ==> #[trigger] t@[j].key() != k@,
        decreases t.len() - i,
    {
        if *t[i].key_text() == *k {
            return true;
        }
        i = i + 1;
    }
    false
}

/// The position of the first row with key `k`.
fn position_of_key<T: Row>(t: &Vec<T>, k: &String) -> (r: Option<usize>)
    ensures
        match r {
            Some(i) => i < t@.len() && by_key(t@, k@) == Some(t@[i as int]),
            None => by_key(t@, k@) is None,
        },
{
    let mut i: usize = 0;
    while i < t.len()
        invariant
            i <= t.len(),
            t@.take(i as int).filter(key_is::<T>(k@)).len() == 0,
        decreases t.len() - i,
    {
        proof {
            lemma_filter_take_succ(t@, key_is::<T>(k@), i as int);
        }
        if *t[i].key_text() == *k {
            proof {
                lemma_first_at(t@, key_is::<T>(k@), i as int);
            }
            return Some(i);
        }
        i = i + 1;
    }
    proof {
        lemma_first_none(t@, key_is::<T>(k@));
    }
    None
}

/// A copy of the whole table.
fn copy_table<T: Row>(t: &Vec<T>) -> (r: Vec<T>)
    ensures
        r@ == t@,
{
    let mut r: Vec<T> = Vec::new();
    let mut i: usize = 0;
    while i < t.len()
        invariant
            i <= t@.len(),
            r@ == t@.take(i as int),
        decreases t@.len() - i,
    {
        r.push(t[i].copy_row());
        proof {
            assert(t@.take(i + 1) =~= t@.take(i as int).push(t@[i as int]));
        }
        i = i + 1;
    }
    assert(t@.take(t@.len() as int) =~= t@);
    r
}

/// Filtering keeps keys distinct.
proof fn lemma_filter_keys_distinct<T: Row>(s: Seq<T>, p: spec_fn(T) -> bool)
    requires
        keys_distinct(s),
    ensures
        keys_distinct(s.filter(p)),
    decreases s.len(),
{
    reveal(Seq::filter);
    if s.len() > 0 {
        let rest = s.drop_last();
        assert(keys_distinct(rest));
        lemma_filter_keys_distinct(rest, p);
        if p(s.last()) {
            let f = rest.filter(p);
            assert forall|i: int| 0 <= i < f.len() implies f[i].key() != s.last().key() by {
                rest.lemma_filter_contains_rev(p, f[i]);
                let j = choose|j: int| 0 <= j < rest.len() && rest[j] == f[i];
                assert(s[j] == rest[j]);
            }
            assert forall|a: int, b: int| 0 <= a < b < f.push(s.last()).len() implies
                #[trigger] f.push(s.last())[a].key() != #[trigger] f.push(s.last())[b].key() by {
                if b == f.len() {
                    assert(f.push(s.last())[a] == f[a]);
                }
            }
        }
    }
}

/// Whether no two rows of the table share a key.
fn table_keys_distinct<T: Row>(t: &Vec<T>) -> (r: bool)
    ensures
        r == keys_distinct(t@),
{
    let mut j: usize = 0;
    while j < t.len()
        invariant
            j <= t@.len(),
            forall|a: int, b: int| 0 <= a < b < j ==> #[trigger] t@[a].key() != #[trigger] t@[b].key(),
        decreases t@.len() - j,
    {
        let mut i: usize = 0;
        while i < j
            invariant
                i <= j < t@.len(),
                forall|a: int| 0 <= a < i ==> #[trigger] t@[a].key() != t@[j as int].key(),
            decreases j - i,
        {
            if *t[i].key_text() == *t[j].key_text() {
                return false;
            }
            i = i + 1;
        }
        j = j + 1;
    }
    true
}

/// Stores `row` at the end of the table unless its key is taken.
fn insert_row<T: Row>(t: &mut Vec<T>, row: T) -> (r: Result<(), DbError>)
    ensures
        r is Ok <==> !has_key(old(t)@, row.key()),
        r is Ok ==> final(t)@ == old(t)@.push(row),
        r is Err ==> final(t)@ == old(t)@,
        keys_distinct(old(t)@) ==> keys_distinct(final(t)@),
{
    if table_has_key(t, row.key_text()) {
        Err(DbError::DuplicateKey)
    } else {
        let ghost before = t@;
        t.push(row);
        proof {
            assert forall|i: int, j: int| 0 <= i < j < t@.len() && keys_distinct(before)
                implies #[trigger] t@[i].key() != #[trigger] t@[j].key() by {
                if j == before.len() {
                    assert(t@[i] == before[i]);
                }
            }
        }
        Ok(())
    }
}

/// The six tables.
#[derive(Clone, Copy, Debug, PartialEq, Eq)]
pub enum Table {
    Users,
    Rooms,
    RoomToUsers,
    Messages,
    Games,
    Moves,
}

/// Users whose websocket session reads `ws`.
pub open spec fn ws_is(ws: Seq<char>) -> spec_fn(User) -> bool {
    |u: User| u.web_socket_session@ == ws
}

/// Users whose phone reads `phone`.
pub open spec fn phone_is(phone: Seq<char>) -> spec_fn(User) -> bool {
    |u: User| u.phone@ == phone
}

/// The first user connected with websocket session `ws`.
pub open spec fn user_by_ws(users: Seq<User>, ws: Seq<char>) -> Option<User> {
    first(users, ws_is(ws))
}

/// The first user with phone `phone`.
pub open spec fn user_by_phone(users: Seq<User>, phone: Seq<char>) -> Option<User> {
    first(users, phone_is(phone))
}

/// Memberships of room `room`.
pub open spec fn in_room(room: Seq<char>) -> spec_fn(RoomToUser) -> bool {
    |d: RoomToUser| d.room@ == room
}

/// Memberships of user `user`.
pub open spec fn of_user(user: Seq<char>) -> spec_fn(RoomToUser) -> bool {
    |d: RoomToUser| d.user@ == user
}

/// The user a membership names (the first user with that id).
pub open spec fn member_user(users: Seq<User>) -> spec_fn(RoomToUser) -> User {
    |d: RoomToUser| by_key(users, d.user@).unwrap()
}

/// Every membership of room `room` names a stored user.
pub open spec fn members_known(users: Seq<User>, memberships: Seq<RoomToUser>, room: Seq<char>) -> bool {
    forall|i: int|
        0 <= i < memberships.len() && #[trigger] memberships[i].room@ == room ==> by_key(
            users,
            memberships[i].user@,
        ) is Some
}

/// The users of room `room`, one per membership, in the order the
/// memberships were stored.
pub open spec fn room_members(users: Seq<User>, memberships: Seq<RoomToUser>, room: Seq<char>) -> Seq<User> {
    memberships.filter(in_room(room)).map_values(member_user(users))
}

/// How message `m` is shown with the author `u`.
pub open spec fn shown_as(m: Message) -> spec_fn(User) -> DisplayMessage {
    |u: User| DisplayMessage { content: m.content, username: u.username }
}

/// The lines that show message `m`, if it was posted in room `room`: one
/// for each user whose id is the message's author id.
pub open spec fn shown_in(users: Seq<User>, room: Seq<char>) -> spec_fn(Message) -> Seq<DisplayMessage> {
    |m: Message|
        if m.room_id@ == room {
            users.filter(key_is::<User>(m.user_id@)).map_values(shown_as(m))
        } else {
            Seq::empty()
        }
}

/// The messages of room `room` joined with their authors, in the order the
/// messages were stored.
pub open spec fn display_messages(messages: Seq<Message>, users: Seq<User>, room: Seq<char>) -> Seq<DisplayMessage> {
    messages.flat_map(shown_in(users, room))
}

/// The games shown in room `room_id`: every game, when exactly one room
/// has that id and it is named "Tic Tac Toe"; none otherwise.
pub open spec fn games_in_room(rooms: Seq<Room>, games: Seq<TicTacToeGame>, room_id: Seq<char>) -> Seq<TicTacToeGame> {
    let r = rooms.filter(key_is::<Room>(room_id));
    if r.len() == 1 && r[0].name@ == "Tic Tac Toe"@ {
        games
    } else {
        Seq::empty()
    }
}

/// The users listed under `room` when the rooms are grouped with their
/// users: membership `d` lists its user under the room it names, when both
/// the user and the room are stored and that room reads the same as `room`.
pub open spec fn listed_under(users: Seq<User>, rooms: Seq<Room>, room: Room) -> spec_fn(RoomToUser) -> Option<User> {
    |d: RoomToUser|
        match (by_key(users, d.user@), by_key(rooms, d.room@)) {
            (Some(u), Some(r)) => if r.same(room) {
                Some(u)
            } else {
                None
            },
            _ => None,
        }
}

/// Memberships of user `user` in room `room`.
pub open spec fn membership_is(room: Seq<char>, user: Seq<char>) -> spec_fn(RoomToUser) -> bool {
    |d: RoomToUser| d.room@ == room && d.user@ == user
}

/// Memberships other than those of user `user` in room `room`.
pub open spec fn not_membership(room: Seq<char>, user: Seq<char>) -> spec_fn(RoomToUser) -> bool {
    |d: RoomToUser| !membership_is(room, user)(d)
}

/// Some membership puts user `user` in room `room`.
pub open spec fn has_membership(memberships: Seq<RoomToUser>, room: Seq<char>, user: Seq<char>) -> bool {
    exists|i: int| 0 <= i < memberships.len() && #[trigger] membership_is(room, user)(memberships[i])
}

/// Game `g2` is game `g` with user `user` as second player whose turn it is.
pub open spec fn joined(g2: TicTacToeGame, g: TicTacToeGame, user: Seq<char>) -> bool {
    &&& g2.id == g.id
    &&& g2.player_1 == g.player_1
    &&& opt_view(g2.player_2) == Some(user)
    &&& opt_view(g2.turn) == Some(user)
    &&& g2.game_status == g.game_status
    &&& g2.created_at == g.created_at
}

/// Moves played by `player` in game `game`.
pub open spec fn move_of(game: Seq<char>, player: Seq<char>) -> spec_fn(TicTacToeMove) -> bool {
    |m: TicTacToeMove| m.game_id@ == game && m.player_id@ == player
}

/// The square a move marks.
pub open spec fn square_of() -> spec_fn(TicTacToeMove) -> Square {
    |m: TicTacToeMove| (m.row_number, m.column_number)
}

/// The squares `player` has marked in game `game`, in the order played.
pub open spec fn marks_of(moves: Seq<TicTacToeMove>, game: Seq<char>, player: Seq<char>) -> Seq<Square> {
    moves.filter(move_of(game, player)).map_values(square_of())
}

/// Moves of game `game` on square (`row`, `col`).
pub open spec fn on_square(game: Seq<char>, row: i32, col: i32) -> spec_fn(TicTacToeMove) -> bool {
    |m: TicTacToeMove| m.game_id@ == game && m.row_number == row && m.column_number == col
}

/// The game with id `game` gets status `status`; others stay.
pub open spec fn status_set(game: Seq<char>, status: String) -> spec_fn(TicTacToeGame) -> TicTacToeGame {
    |g: TicTacToeGame|
        if g.id@ == game {
            TicTacToeGame { game_status: status, ..g }
        } else {
            g
        }
}

/// The game with id `game` gets turn `turn`; others stay.
pub open spec fn turn_set(game: Seq<char>, turn: String) -> spec_fn(TicTacToeGame) -> TicTacToeGame {
    |g: TicTacToeGame|
        if g.id@ == game {
            TicTacToeGame { turn: Some(turn), ..g }
        } else {
            g
        }
}

/// Whose turn it is after `player` moved in game `g`: the second player
/// after the first one, the first player after anyone else.
pub open spec fn next_turn(g: TicTacToeGame, player: Seq<char>) -> String {
    if player == g.player_1@ {
        g.player_2.unwrap()
    } else {
        g.player_1
    }
}

/// The status a game gets when `player` has made three on a line.
pub open spec fn won_status(g: TicTacToeGame, player: Seq<char>) -> Seq<char> {
    if player == g.player_1@ {
        "player_1_won"@
    } else {
        "player_2_won"@
    }
}

/// A user with id `user_id` gets websocket session `session_id`; others stay.
pub open spec fn session_set(user_id: Seq<char>, session_id: String) -> spec_fn(User) -> User {
    |u: User|
        if u.id@ == user_id {
            User { web_socket_session: session_id, ..u }
        } else {
            u
        }
}

/// The lobby's tables.
#[derive(Clone, Debug)]
pub struct Store {
    pub users: Vec<User>,
    pub rooms: Vec<Room>,
    pub room_to_users: Vec<RoomToUser>,
    pub messages: Vec<Message>,
    pub tic_tac_toe_games: Vec<TicTacToeGame>,
    pub tic_tac_toe_moves: Vec<TicTacToeMove>,
}

/// What a write stores, a read by its key gives back: after a row whose key
/// was free is stored, looking up that key finds the row, and looking up
/// any other key finds what it found before.
pub proof fn lemma_stored_row_is_found<T: Row>(before: Seq<T>, row: T, k: Seq<char>)
    requires
        !has_key(before, row.key()),
    ensures
        by_key(before.push(row), row.key()) == Some(row),
        k != row.key() ==> by_key(before.push(row), k) == by_key(before, k),
{
    reveal(Seq::filter);
    assert(before.push(row).drop_last() =~= before);
    let f = before.filter(key_is::<T>(row.key()));
    assert(f.len() == 0) by {
        if f.len() > 0 {
            before.lemma_filter_pred(key_is::<T>(row.key()), 0);
            before.lemma_filter_contains_rev(key_is::<T>(row.key()), f[0]);
            let j = choose|j: int| 0 <= j < before.len() && before[j] == f[0];
            assert(before[j].key() == row.key());
        }
    }
    assert(before.push(row).filter(key_is::<T>(row.key())) =~= f.push(row));
}

/// After a user's session is set, looking the user up by id shows the new
/// session and nothing else changed.
pub proof fn lemma_session_update_is_read_back(users: Seq<User>, user_id: Seq<char>, session_id: String)
    requires
        by_key(users, user_id) is Some,
    ensures
        by_key(users.map_values(session_set(user_id, session_id)), user_id)
            == Some(User { web_socket_session: session_id, ..by_key(users, user_id).unwrap() }),
{
    crate::seqs::lemma_first_map_values(users, key_is::<User>(user_id), key_is::<User>(user_id), session_set(user_id, session_id));
}

/// Joining a room makes a member: whatever `join_room` answered `Ok` with,
/// the user is in the room afterwards.
pub proof fn lemma_join_room_makes_member(
    before: Seq<RoomToUser>,
    after: Seq<RoomToUser>,
    room: Seq<char>,
    user: Seq<char>,
    row: RoomToUser,
)
    requires
        row.room@ == room,
        row.user@ == user,
        if has_membership(before, room, user) {
            after == before
        } else {
            after == before.push(row)
        },
    ensures
        has_membership(after, room, user),
{
    if !has_membership(before, room, user) {
        assert(membership_is(room, user)(after[before.len() as int]));
    }
}

/// Leaving a room leaves no membership of the user in it.
pub proof fn lemma_leave_room_removes_member(before: Seq<RoomToUser>, room: Seq<char>, user: Seq<char>)
    ensures
        !has_membership(before.filter(not_membership(room, user)), room, user),
{
    let after = before.filter(not_membership(room, user));
    assert forall|i: int| 0 <= i < after.len() implies !#[trigger] membership_is(room, user)(after[i]) by {
        before.lemma_filter_pred(not_membership(room, user), i);
    }
}

/// Leaving a room takes nothing else away: every membership that does not
/// put that user in that room stays, and the memberships that stay keep
/// their order.
pub proof fn lemma_leave_room_keeps_other_memberships(before: Seq<RoomToUser>, room: Seq<char>, user: Seq<char>)
    ensures
        forall|d: RoomToUser| #[trigger] before.contains(d) && !(d.room@ == room && d.user@ == user)
            ==> before.filter(not_membership(room, user)).contains(d),
        forall|i: int| 0 <= i < before.filter(not_membership(room, user)).len()
            ==> before.contains(#[trigger] before.filter(not_membership(room, user))[i]),
{
    assert forall|d: RoomToUser| #[trigger] before.contains(d) && !(d.room@ == room && d.user@ == user)
        implies before.filter(not_membership(room, user)).contains(d) by {
        let i = choose|i: int| 0 <= i < before.len() && before[i] == d;
        before.lemma_filter_contains(not_membership(room, user), i);
    }
    assert forall|i: int| 0 <= i < before.filter(not_membership(room, user)).len()
        implies before.contains(#[trigger] before.filter(not_membership(room, user))[i]) by {
        before.lemma_filter_contains_rev(not_membership(room, user), before.filter(not_membership(room, user))[i]);
    }
}

/// The room of tic-tac-toe shows every game: when exactly one room has id
/// `room_id` and it is named "Tic Tac Toe", the games shown there are the
/// whole games table.
pub proof fn lemma_tic_tac_toe_room_shows_every_game(rooms: Seq<Room>, games: Seq<TicTacToeGame>, room_id: Seq<char>, i: int)
    requires
        0 <= i < rooms.len(),
        rooms[i].id@ == room_id,
        rooms[i].name@ == "Tic Tac Toe"@,
        forall|j: int| 0 <= j < rooms.len() && j != i ==> (#[trigger] rooms[j]).id@ != room_id,
    ensures
        games_in_room(rooms, games, room_id) == games,
{
    assert forall|j: int| 0 <= j < rooms.len() && j != i implies !key_is::<Room>(room_id)(#[trigger] rooms[j]) by {
        assert(rooms[j].id@ != room_id);
    }
    lemma_filter_single(rooms, key_is::<Room>(room_id), i);
}

/// Any other room shows no game: when no room with id `room_id` is named
/// "Tic Tac Toe", nothing is shown there.
pub proof fn lemma_other_rooms_show_no_games(rooms: Seq<Room>, games: Seq<TicTacToeGame>, room_id: Seq<char>)
    requires
        forall|j: int| 0 <= j < rooms.len() && (#[trigger] rooms[j]).id@ == room_id ==> rooms[j].name@ != "Tic Tac Toe"@,
    ensures
        games_in_room(rooms, games, room_id) == Seq::<TicTacToeGame>::empty(),
{
    let r = rooms.filter(key_is::<Room>(room_id));
    if r.len() == 1 {
        rooms.lemma_filter_pred(key_is::<Room>(room_id), 0);
        rooms.lemma_filter_contains_rev(key_is::<Room>(room_id), r[0]);
        let j = choose|j: int| 0 <= j < rooms.len() && rooms[j] == r[0];
        assert(rooms[j].id@ == room_id);
    }
}

/// A stored message of room `room` whose author is stored.
pub open spec fn authored_in(users: Seq<User>, room: Seq<char>) -> spec_fn(Message) -> bool {
    |m: Message| m.room_id@ == room && has_key(users, m.user_id@)
}

/// The line that shows message `m`: its text and its author's username.
pub open spec fn line_of(users: Seq<User>) -> spec_fn(Message) -> DisplayMessage {
    |m: Message| DisplayMessage { content: m.content, username: by_key(users, m.user_id@).unwrap().username }
}

/// With one user per id, the lines that show message `m` when it is in the
/// room: one line with its author's name when the author is stored, none
/// otherwise.
proof fn lemma_author_lines(users: Seq<User>, m: Message)
    requires
        keys_distinct(users),
    ensures
        users.filter(key_is::<User>(m.user_id@)).map_values(shown_as(m)) == if has_key(users, m.user_id@) {
            seq![line_of(users)(m)]
        } else {
            Seq::<DisplayMessage>::empty()
        },
{
    let p = key_is::<User>(m.user_id@);
    if has_key(users, m.user_id@) {
        let i = choose|i: int| 0 <= i < users.len() && #[trigger] users[i].key() == m.user_id@;
        assert forall|j: int| 0 <= j < users.len() && j != i implies !p(#[trigger] users[j]) by {
            if j < i {
                assert(users[j].key() != users[i].key());
            } else {
                assert(users[i].key() != users[j].key());
            }
        }
        lemma_filter_single(users, p, i);
        assert(users.filter(p).map_values(shown_as(m)) =~= seq![line_of(users)(m)]);
    } else {
        assert forall|j: int| 0 <= j < users.len() implies !p(#[trigger] users[j]) by {
            if p(users[j]) {
                assert(users[j].key() == m.user_id@);
            }
        }
        lemma_filter_none(users, p);
        assert(users.filter(p).map_values(shown_as(m)) =~= Seq::<DisplayMessage>::empty());
    }
}

/// A room's messages are each shown once: with one user per id, the lines
/// of room `room` are, in stored order, one line for every message of the
/// room whose author is stored, carrying its text and its author's name.
pub proof fn lemma_room_messages_each_shown_once(messages: Seq<Message>, users: Seq<User>, room: Seq<char>)
    requires
        keys_distinct(users),
    ensures
        display_messages(messages, users, room) == messages.filter(authored_in(users, room)).map_values(line_of(users)),
    decreases messages.len(),
{
    reveal(Seq::filter);
    if messages.len() == 0 {
        assert(display_messages(messages, users, room) =~= Seq::<DisplayMessage>::empty()) by {
            reveal_with_fuel(Seq::flatten, 1);
        }
        assert(messages.filter(authored_in(users, room)).map_values(line_of(users)) =~= Seq::<DisplayMessage>::empty());
    } else {
        let rest = messages.drop_last();
        let m = messages.last();
        lemma_room_messages_each_shown_once(rest, users, room);
        assert(messages =~= rest.push(m));
        rest.lemma_flat_map_push(shown_in(users, room), m);
        lemma_author_lines(users, m);
        let p = authored_in(users, room);
        if p(m) {
            assert(messages.filter(p) == rest.filter(p).push(m));
            assert(messages.filter(p).map_values(line_of(users)) =~= rest.filter(p).map_values(line_of(users)).push(
                line_of(users)(m),
            ));
            assert(display_messages(messages, users, room) =~= display_messages(rest, users, room) + seq![line_of(users)(m)]);
        } else {
            assert(messages.filter(p) == rest.filter(p));
            assert(display_messages(messages, users, room) =~= display_messages(rest, users, room) + Seq::<DisplayMessage>::empty());
        }
    }
}

/// A square once played is taken: after a move is recorded, its square in
/// its game is no longer free.
pub proof fn lemma_played_square_is_taken(before: Seq<TicTacToeMove>, m: TicTacToeMove)
    ensures
        exists|i: int| 0 <= i < before.push(m).len()
            && #[trigger] on_square(m.game_id@, m.row_number, m.column_number)(before.push(m)[i]),
{
    assert(on_square(m.game_id@, m.row_number, m.column_number)(before.push(m)[before.len() as int]));
}

/// A square once played is never free again: along any run of tables in
/// which each step keeps the moves before it (as every update of the store
/// and of a session does), a square taken at the start is taken at every
/// later point, so `legal_move` refuses it from then on.
pub proof fn lemma_played_square_stays_taken(history: Seq<Seq<TicTacToeMove>>, game: Seq<char>, row: i32, col: i32)
    requires
        history.len() > 0,
        forall|k: int| 0 <= k < history.len() - 1 ==> keeps_moves(#[trigger] history[k], history[k + 1]),
        square_taken(history[0], game, row, col),
    ensures
        forall|k: int| 0 <= k < history.len() ==> square_taken(#[trigger] history[k], game, row, col),
    decreases history.len(),
{
    if history.len() > 1 {
        let shorter = history.drop_last();
        assert forall|k: int| 0 <= k < shorter.len() - 1 implies keeps_moves(#[trigger] shorter[k], shorter[k + 1]) by {
            assert(keeps_moves(history[k], history[k + 1]));
        }
        lemma_played_square_stays_taken(shorter, game, row, col);
        assert forall|k: int| 0 <= k < history.len() implies square_taken(#[trigger] history[k], game, row, col) by {
            if k < shorter.len() {
                assert(square_taken(shorter[k], game, row, col));
            } else {
                let prev = history[k - 1];
                assert(keeps_moves(prev, history[k]));
                assert(square_taken(shorter[k - 1], game, row, col));
                let i = choose|i: int| 0 <= i < prev.len() && #[trigger] on_square(game, row, col)(prev[i]);
                assert(history[k][i] == prev[i]);
            }
        }
    }
}

/// The joining player moves first: in a game just opened (stored under a
/// fresh id with no turn, as `create_tic_tac_toe` does) it is nobody's turn;
/// once user `b` joins it (as `join_game` does), it is `b`'s turn and no one
/// else's.
pub proof fn lemma_joiner_moves_first(
    before: Seq<TicTacToeGame>,
    g: TicTacToeGame,
    after: Seq<TicTacToeGame>,
    b: Seq<char>,
)
    requires
        !has_key(before, g.id@),
        g.turn is None,
        after.len() == before.push(g).len(),
        forall|i: int| 0 <= i < before.push(g).len() ==>
            if before.push(g)[i].id@ == g.id@ {
                joined(#[trigger] after[i], before.push(g)[i], b)
            } else {
                after[i] == before.push(g)[i]
            },
    ensures
        forall|x: Seq<char>| !has_turn(before.push(g), g.id@, x),
        has_turn(after, g.id@, b),
        forall|a: Seq<char>| a != b ==> !has_turn(after, g.id@, a),
{
    let created = before.push(g);
    lemma_stored_row_is_found(before, g, g.id@);
    let n = before.len() as int;
    let rest = after.drop_last();
    assert(after[n].id == g.id) by {
        assert(created[n] == g);
        assert(joined(after[n], created[n], b));
    }
    assert(!has_key(rest, g.id@)) by {
        if has_key(rest, g.id@) {
            let i = choose|i: int| 0 <= i < rest.len() && #[trigger] rest[i].key() == g.id@;
            assert(created[i] == before[i]);
            if before[i].id@ == g.id@ {
                assert(before[i].key() == g.id@);
            } else {
                assert(after[i] == before[i]);
            }
        }
    }
    assert(after =~= rest.push(after[n]));
    lemma_stored_row_is_found(rest, after[n], g.id@);
    assert(joined(after[n], created[n], b));
}

/// The turn passes: after player 1 of a game moves, it is player 2's turn;
/// after anyone else moves, it is player 1's turn. So a player whose
/// opponent is another user does not keep the turn.
pub proof fn lemma_turn_passes(games: Seq<TicTacToeGame>, game: Seq<char>, player: Seq<char>)
    requires
        by_key(games, game) is Some,
        player == by_key(games, game).unwrap().player_1@ ==> by_key(games, game).unwrap().player_2 is Some,
    ensures
        ({
            let g = by_key(games, game).unwrap();
            let after = by_key(games.map_values(turn_set(game, next_turn(g, player))), game).unwrap();
            &&& after.turn == Some(next_turn(g, player))
            &&& (player == g.player_1@ ==> opt_view(after.turn) == opt_view(g.player_2))
            &&& (player != g.player_1@ ==> opt_view(after.turn) == Some(g.player_1@))
            &&& (player == g.player_1@ && g.player_2.unwrap()@ != player ==> opt_view(after.turn) != Some(player))
        }),
{
    let g = by_key(games, game).unwrap();
    crate::seqs::lemma_first_map_values(games, key_is::<TicTacToeGame>(game), key_is::<TicTacToeGame>(game), turn_set(game, next_turn(g, player)));
}

/// The moves of each game are on distinct squares.
pub open spec fn squares_distinct(moves: Seq<TicTacToeMove>) -> bool {
    forall|i: int, j: int|
        0 <= i < j < moves.len() && #[trigger] moves[i].game_id@ == #[trigger] moves[j].game_id@ ==> (
        moves[i].row_number, moves[i].column_number) != (moves[j].row_number, moves[j].column_number)
}

/// On distinct squares, no player has marked a square twice.
pub proof fn lemma_marks_distinct(moves: Seq<TicTacToeMove>, game: Seq<char>, player: Seq<char>)
    requires
        squares_distinct(moves),
    ensures
        marks_of(moves, game, player).no_duplicates(),
    decreases moves.len(),
{
    reveal(Seq::filter);
    if moves.len() > 0 {
        let rest = moves.drop_last();
        assert(squares_distinct(rest)) by {
            assert forall|i: int, j: int|
                0 <= i < j < rest.len() && #[trigger] rest[i].game_id@ == #[trigger] rest[j].game_id@ implies (
                rest[i].row_number, rest[i].column_number) != (rest[j].row_number, rest[j].column_number) by {
                assert(rest[i] == moves[i] && rest[j] == moves[j]);
            }
        }
        lemma_marks_distinct(rest, game, player);
        let p = move_of(game, player);
        let f = rest.filter(p);
        if p(moves.last()) {
            assert(moves.filter(p) == f.push(moves.last()));
            assert(marks_of(moves, game, player) =~= marks_of(rest, game, player).push(square_of()(moves.last())));
            assert forall|i: int| 0 <= i < f.len() implies square_of()(f[i]) != square_of()(moves.last()) by {
                rest.lemma_filter_pred(p, i);
                rest.lemma_filter_contains_rev(p, f[i]);
                let j = choose|j: int| 0 <= j < rest.len() && rest[j] == f[i];
                assert(moves[j] == f[i]);
                assert(moves[moves.len() - 1] == moves.last());
            }
            let mr = marks_of(rest, game, player);
            let m = marks_of(moves, game, player);
            assert forall|a: int, b: int| 0 <= a < m.len() && 0 <= b < m.len() && a != b implies m[a] != m[b] by {
                if a < mr.len() && b < mr.len() {
                    assert(m[a] == mr[a] && m[b] == mr[b]);
                } else if a < mr.len() {
                    assert(m[a] == square_of()(f[a]));
                } else {
                    assert(m[b] == square_of()(f[b]));
                }
            }
        } else {
            assert(moves.filter(p) == f);
        }
    }
}

/// The winning rule of the settled game: when the moves of each game are
/// on distinct squares and the player's marks are on the board, the game
/// is won (its status set to a "won" status) exactly when the player's
/// marks cover a whole row, column or diagonal.
pub proof fn lemma_won_exactly_on_a_full_line(moves: Seq<TicTacToeMove>, game: Seq<char>, player: Seq<char>)
    requires
        squares_distinct(moves),
        on_board(marks_of(moves, game, player)),
    ensures
        has_line_of_three(marks_of(moves, game, player)) <==> exists|k: int|
            0 <= k < 8 && #[trigger] covers_line(marks_of(moves, game, player), k),
{
    lemma_marks_distinct(moves, game, player);
    lemma_win_is_a_full_line(marks_of(moves, game, player));
}

impl Store {
    /// Every table has distinct primary keys.
    pub open spec fn wf(&self) -> bool {
        &&& keys_distinct(self.users@)
        &&& keys_distinct(self.rooms@)
        &&& keys_distinct(self.room_to_users@)
        &&& keys_distinct(self.messages@)
        &&& keys_distinct(self.tic_tac_toe_games@)
        &&& keys_distinct(self.tic_tac_toe_moves@)
    }

    /// An empty store.
    pub fn new() -> (s: Store)
        ensures
            s.wf(),
            s.users@.len() == 0,
            s.rooms@.len() == 0,
            s.room_to_users@.len() == 0,
            s.messages@.len() == 0,
            s.tic_tac_toe_games@.len() == 0,
            s.tic_tac_toe_moves@.len() == 0,
    {
        Store {
            users: Vec::new(),
            rooms: Vec::new(),
            room_to_users: Vec::new(),
            messages: Vec::new(),
            tic_tac_toe_games: Vec::new(),
            tic_tac_toe_moves: Vec::new(),
        }
    }

    /// The two stores hold the same rows in every table but `t`.
    pub open spec fn agrees_except(self, other: Store, t: Table) -> bool {
        &&& (t != Table::Users ==> self.users@ == other.users@)
        &&& (t != Table::Rooms ==> self.rooms@ == other.rooms@)
        &&& (t != Table::RoomToUsers ==> self.room_to_users@ == other.room_to_users@)
        &&& (t != Table::Messages ==> self.messages@ == other.messages@)
        &&& (t != Table::Games ==> self.tic_tac_toe_games@ == other.tic_tac_toe_games@)
        &&& (t != Table::Moves ==> self.tic_tac_toe_moves@ == other.tic_tac_toe_moves@)
    }

    /// The two stores hold the same rows in every table.
    pub open spec fn same_rows(self, other: Store) -> bool {
        &&& self.agrees_except(other, Table::Users)
        &&& self.users@ == other.users@
    }

    /// Stores a user unless its id is taken.
    pub fn insert_user(&mut self, user: User) -> (r: Result<(), DbError>)
        ensures
            r is Ok <==> !has_key(old(self).users@, user.id@),
            r is Ok ==> final(self).users@ == old(self).users@.push(user),
            r is Err ==> final(self).users@ == old(self).users@,
            final(self).agrees_except(*old(self), Table::Users),
            keeps_moves(old(self).tic_tac_toe_moves@, final(self).tic_tac_toe_moves@),
            old(self).wf() ==> final(self).wf(),
    {
        insert_row(&mut self.users, user)
    }

    /// Stores a message unless its id is taken.
    pub fn insert_message(&mut self, message: Message) -> (r: Result<(), DbError>)
        ensures
            r is Ok <==> !has_key(old(self).messages@, message.id@),
            r is Ok ==> final(self).messages@ == old(self).messages@.push(message),
            r is Err ==> final(self).messages@ == old(self).messages@,
            final(self).agrees_except(*old(self), Table::Messages),
            keeps_moves(old(self).tic_tac_toe_moves@, final(self).tic_tac_toe_moves@),
            old(self).wf() ==> final(self).wf(),
    {
        insert_row(&mut self.messages, message)
    }

    /// Stores a room membership unless its id is taken.
    pub fn insert_room_to_user(&mut self, row: RoomToUser) -> (r: Result<(), DbError>)
        ensures
            r is Ok <==> !has_key(old(self).room_to_users@, row.id@),
            r is Ok ==> final(self).room_to_users@ == old(self).room_to_users@.push(row),
            r is Err ==> final(self).room_to_users@ == old(self).room_to_users@,
            final(self).agrees_except(*old(self), Table::RoomToUsers),
            keeps_moves(old(self).tic_tac_toe_moves@, final(self).tic_tac_toe_moves@),
            old(self).wf() ==> final(self).wf(),
    {
        insert_row(&mut self.room_to_users, row)
    }

    /// Stores a game unless its id is taken.
    pub fn insert_game(&mut self, game: TicTacToeGame) -> (r: Result<(), DbError>)
        ensures
            r is Ok <==> !has_key(old(self).tic_tac_toe_games@, game.id@),
            r is Ok ==> final(self).tic_tac_toe_games@ == old(self).tic_tac_toe_games@.push(game),
            r is Err ==> final(self).tic_tac_toe_games@ == old(self).tic_tac_toe_games@,
            final(self).agrees_except(*old(self), Table::Games),
            keeps_moves(old(self).tic_tac_toe_moves@, final(self).tic_tac_toe_moves@),
            old(self).wf() ==> final(self).wf(),
    {
        insert_row(&mut self.tic_tac_toe_games, game)
    }

    /// Stores a move unless its id is taken.
    pub fn insert_move(&mut self, mv: TicTacToeMove) -> (r: Result<(), DbError>)
        ensures
            r is Ok <==> !has_key(old(self).tic_tac_toe_moves@, mv.id@),
            r is Ok ==> final(self).tic_tac_toe_moves@ == old(self).tic_tac_toe_moves@.push(mv),
            r is Err ==> final(self).tic_tac_toe_moves@ == old(self).tic_tac_toe_moves@,
            final(self).agrees_except(*old(self), Table::Moves),
            keeps_moves(old(self).tic_tac_toe_moves@, final(self).tic_tac_toe_moves@),
            old(self).wf() ==> final(self).wf(),
    {
        insert_row(&mut self.tic_tac_toe_moves, mv)
    }

    /// The position of the first user connected with session `ws`.
    fn position_of_ws(&self, ws: &String) -> (r: Option<usize>)
        ensures
            match r {
                Some(i) => i < self.users@.len() && user_by_ws(self.users@, ws@) == Some(self.users@[i as int]),
                None => user_by_ws(self.users@, ws@) is None,
            },
    {
        let mut i: usize = 0;
        while i < self.users.len()
            invariant
                i <= self.users@.len(),
                self.users@.take(i as int).filter(ws_is(ws@)).len() == 0,
            decreases self.users@.len() - i,
        {
            proof {
                lemma_filter_take_succ(self.users@, ws_is(ws@), i as int);
            }
            if self.users[i].web_socket_session == *ws {
                proof {
                    lemma_first_at(self.users@, ws_is(ws@), i as int);
                }
                return Some(i);
            }
            i = i + 1;
        }
        proof {
            lemma_first_none(self.users@, ws_is(ws@));
        }
        None
    }

    /// The user connected with websocket session `ws_id`: the first such user.
    pub fn find_user_by_ws(&self, ws_id: String) -> (u: User)
        requires
            user_by_ws(self.users@, ws_id@) is Some,
        ensures
            Some(u) == user_by_ws(self.users@, ws_id@),
    {
        let i = self.position_of_ws(&ws_id).unwrap();
        self.users[i].copy()
    }

    /// The user with id `uid`, if any.
    pub fn find_user_by_uid(&self, uid: String) -> (u: Option<User>)
        ensures
            u == by_key(self.users@, uid@),
    {
        match position_of_key(&self.users, &uid) {
            Some(i) => Some(self.users[i].copy()),
            None => None,
        }
    }

    /// Sets the websocket session of every user with id `user_id` to
    /// `session_id`, and answers how many users it changed.
    pub fn update_user_session(&mut self, user_id: String, session_id: String) -> (n: usize)
        ensures
            final(self).users@ == old(self).users@.map_values(session_set(user_id@, session_id)),
            n == old(self).users@.filter(key_is::<User>(user_id@)).len(),
            final(self).agrees_except(*old(self), Table::Users),
            keeps_moves(old(self).tic_tac_toe_moves@, final(self).tic_tac_toe_moves@),
            old(self).wf() ==> final(self).wf(),
    {
        let ghost before = self.users@;
        let mut n: usize = 0;
        let mut i: usize = 0;
        while i < self.users.len()
            invariant
                i <= self.users@.len(),
                self.users@.len() == before.len(),
                forall|j: int| 0 <= j < i ==> #[trigger] self.users@[j] == session_set(user_id@, session_id)(before[j]),
                forall|j: int| i <= j < before.len() ==> #[trigger] self.users@[j] == before[j],
                n == before.take(i as int).filter(key_is::<User>(user_id@)).len(),
                n <= i,
                self.agrees_except(*old(self), Table::Users),
            decreases self.users@.len() - i,
        {
            proof {
                lemma_filter_take_succ(before, key_is::<User>(user_id@), i as int);
            }
            if self.users[i].id == user_id {
                let u = self.users[i].copy();
                let ws = session_id.clone();
                let changed = User { web_socket_session: ws, ..u };
                self.users.set(i, changed);
                n = n + 1;
            }
            assert(self.users@[i as int] == session_set(user_id@, session_id)(before[i as int]));
            i = i + 1;
        }
        proof {
            assert(before.take(before.len() as int) =~= before);
            assert(self.users@ =~= before.map_values(session_set(user_id@, session_id)));
            if old(self).wf() {
                assert forall|a: int, b: int| 0 <= a < b < self.users@.len() implies
                    #[trigger] self.users@[a].key() != #[trigger] self.users@[b].key() by {
                    assert(self.users@[a] == session_set(user_id@, session_id)(before[a]));
                    assert(self.users@[b] == session_set(user_id@, session_id)(before[b]));
                    assert(before[a].key() != before[b].key());
                }
            }
        }
        n
    }

    /// The first user with phone `user_phone`, if any.
    pub fn find_user_by_phone(&self, user_phone: String) -> (u: Option<User>)
        ensures
            u == user_by_phone(self.users@, user_phone@),
    {
        let mut i: usize = 0;
        while i < self.users.len()
            invariant
                i <= self.users@.len(),
                self.users@.take(i as int).filter(phone_is(user_phone@)).len() == 0,
            decreases self.users@.len() - i,
        {
            proof {
                lemma_filter_take_succ(self.users@, phone_is(user_phone@), i as int);
            }
            if self.users[i].phone == user_phone {
                proof {
                    lemma_first_at(self.users@, phone_is(user_phone@), i as int);
                }
                return Some(self.users[i].copy());
            }
            i = i + 1;
        }
        proof {
            lemma_first_none(self.users@, phone_is(user_phone@));
        }
        None
    }


    /// The user connected with session `ws` is known, and if that user has
    /// a membership, the room it names is stored.
    pub open spec fn current_room_known(self, ws: Seq<char>) -> bool {
        &&& user_by_ws(self.users@, ws) is Some
        &&& match first(self.room_to_users@, of_user(user_by_ws(self.users@, ws).unwrap().id@)) {
            Some(d) => by_key(self.rooms@, d.room@) is Some,
            None => true,
        }
    }

    /// The room of the user connected with session `ws`: the room named by
    /// the user's first membership, if the user has one.
    pub open spec fn current_room_of(self, ws: Seq<char>) -> Option<Room> {
        match first(self.room_to_users@, of_user(user_by_ws(self.users@, ws).unwrap().id@)) {
            Some(d) => Some(by_key(self.rooms@, d.room@).unwrap()),
            None => None,
        }
    }

    /// The position of the first membership of user `user`.
    fn position_of_membership(&self, user: &String) -> (r: Option<usize>)
        ensures
            match r {
                Some(i) => i < self.room_to_users@.len() && first(self.room_to_users@, of_user(user@))
                    == Some(self.room_to_users@[i as int]),
                None => first(self.room_to_users@, of_user(user@)) is None,
            },
    {
        let mut i: usize = 0;
        while i < self.room_to_users.len()
            invariant
                i <= self.room_to_users@.len(),
                self.room_to_users@.take(i as int).filter(of_user(user@)).len() == 0,
            decreases self.room_to_users@.len() - i,
        {
            proof {
                lemma_filter_take_succ(self.room_to_users@, of_user(user@), i as int);
            }
            if self.room_to_users[i].user == *user {
                proof {
                    lemma_first_at(self.room_to_users@, of_user(user@), i as int);
                }
                return Some(i);
            }
            i = i + 1;
        }
        proof {
            lemma_first_none(self.room_to_users@, of_user(user@));
        }
        None
    }

    /// The messages of room `uid` with the names of their authors.
    pub fn get_display_messages_by_room_uid(&self, uid: String) -> (r: Vec<DisplayMessage>)
        ensures
            r@ == display_messages(self.messages@, self.users@, uid@),
    {
        let mut out: Vec<DisplayMessage> = Vec::new();
        let mut i: usize = 0;
        while i < self.messages.len()
            invariant
                i <= self.messages@.len(),
                out@ == self.messages@.take(i as int).flat_map(shown_in(self.users@, uid@)),
            decreases self.messages@.len() - i,
        {
            proof {
                self.messages@.lemma_flat_map_take_append(shown_in(self.users@, uid@), i as int);
            }
            let m = &self.messages[i];
            if m.room_id == uid {
                let ghost start = out@;
                let mut j: usize = 0;
                while j < self.users.len()
                    invariant
                        j <= self.users@.len(),
                        *m == self.messages@[i as int],
                        out@ == start + self.users@.take(j as int).filter(key_is::<User>(m.user_id@)).map_values(shown_as(*m)),
                    decreases self.users@.len() - j,
                {
                    proof {
                        lemma_filter_take_succ(self.users@, key_is::<User>(m.user_id@), j as int);
                        let prev = self.users@.take(j as int).filter(key_is::<User>(m.user_id@));
                        assert(prev.push(self.users@[j as int]).map_values(shown_as(*m))
                            =~= prev.map_values(shown_as(*m)).push(shown_as(*m)(self.users@[j as int])));
                    }
                    if self.users[j].id == m.user_id {
                        out.push(DisplayMessage { content: m.content.clone(), username: self.users[j].username.clone() });
                    }
                    j = j + 1;
                }
                assert(self.users@.take(self.users@.len() as int) =~= self.users@);
            }
            i = i + 1;
        }
        assert(self.messages@.take(self.messages@.len() as int) =~= self.messages@);
        out
    }

    /// All rooms, in stored order.
    pub fn get_rooms(&self) -> (r: Vec<Room>)
        ensures
            r@ == self.rooms@,
    {
        copy_table(&self.rooms)
    }

    /// The users of room `room_id`, one per membership of the room.
    pub fn get_users_in_room(&self, room_id: String) -> (r: Vec<User>)
        requires
            members_known(self.users@, self.room_to_users@, room_id@),
        ensures
            r@ == room_members(self.users@, self.room_to_users@, room_id@),
    {
        let mut out: Vec<User> = Vec::new();
        let mut i: usize = 0;
        while i < self.room_to_users.len()
            invariant
                i <= self.room_to_users@.len(),
                members_known(self.users@, self.room_to_users@, room_id@),
                out@ == self.room_to_users@.take(i as int).filter(in_room(room_id@)).map_values(member_user(self.users@)),
            decreases self.room_to_users@.len() - i,
        {
            proof {
                lemma_filter_take_succ(self.room_to_users@, in_room(room_id@), i as int);
                let prev = self.room_to_users@.take(i as int).filter(in_room(room_id@));
                assert(prev.push(self.room_to_users@[i as int]).map_values(member_user(self.users@))
                    =~= prev.map_values(member_user(self.users@)).push(member_user(self.users@)(self.room_to_users@[i as int])));
            }
            if self.room_to_users[i].room == room_id {
                let k = position_of_key(&self.users, &self.room_to_users[i].user).unwrap();
                out.push(self.users[k].copy());
            }
            i = i + 1;
        }
        assert(self.room_to_users@.take(self.room_to_users@.len() as int) =~= self.room_to_users@);
        out
    }

    /// The games of room `room_id`: all games when the room is the one
    /// "Tic Tac Toe" room, none otherwise.
    pub fn get_games_in_room(&self, room_id: String) -> (r: Vec<TicTacToeGame>)
        ensures
            r@ == games_in_room(self.rooms@, self.tic_tac_toe_games@, room_id@),
    {
        let mut count: usize = 0;
        let mut found: usize = 0;
        let mut i: usize = 0;
        while i < self.rooms.len()
            invariant
                i <= self.rooms@.len(),
                count == self.rooms@.take(i as int).filter(key_is::<Room>(room_id@)).len(),
                count <= i,
                count > 0 ==> found < self.rooms@.len() && self.rooms@.take(i as int).filter(key_is::<Room>(room_id@))[0] == self.rooms@[found as int],
            decreases self.rooms@.len() - i,
        {
            proof {
                lemma_filter_take_succ(self.rooms@, key_is::<Room>(room_id@), i as int);
            }
            if self.rooms[i].id == room_id {
                if count == 0 {
                    found = i;
                }
                count = count + 1;
            }
            i = i + 1;
        }
        assert(self.rooms@.take(self.rooms@.len() as int) =~= self.rooms@);
        let name = String::from_str("Tic Tac Toe");
        if count != 1 || self.rooms[found].name != name {
            Vec::new()
        } else {
            copy_table(&self.tic_tac_toe_games)
        }
    }

    /// The room of the user connected with session `ws_id`, if the user is
    /// in one.
    pub fn get_current_room(&self, ws_id: String) -> (r: Option<Room>)
        requires
            self.current_room_known(ws_id@),
        ensures
            r == self.current_room_of(ws_id@),
    {
        let current_user = self.find_user_by_ws(ws_id);
        match self.position_of_membership(&current_user.id) {
            None => None,
            Some(i) => {
                let k = position_of_key(&self.rooms, &self.room_to_users[i].room).unwrap();
                Some(self.rooms[k].copy())
            },
        }
    }

    /// The room of the user connected with session `ws_id` together with the
    /// users in it.
    pub fn get_current_room_with_users(&self, ws_id: String) -> (r: RoomResponse)
        requires
            self.current_room_known(ws_id@),
            self.current_room_of(ws_id@) is Some,
            members_known(self.users@, self.room_to_users@, self.current_room_of(ws_id@).unwrap().id@),
        ensures
            Some(r.room) == self.current_room_of(ws_id@),
            r.users@ == room_members(self.users@, self.room_to_users@, r.room.id@),
    {
        let current_room = self.get_current_room(ws_id).unwrap();
        let users = self.get_users_in_room(current_room.id.clone());
        RoomResponse { room: current_room, users }
    }


    /// Posts `message` as the user connected with session `ws_id`, in the
    /// room of that user's first membership. Refused when the fresh id is
    /// taken.
    pub fn insert_new_message(&mut self, ws_id: String, message: String) -> (r: Result<Message, DbError>)
        requires
            user_by_ws(old(self).users@, ws_id@) is Some,
            first(old(self).room_to_users@, of_user(user_by_ws(old(self).users@, ws_id@).unwrap().id@)) is Some,
        ensures
            match r {
                Ok(m) => {
                    &&& m.room_id == first(old(self).room_to_users@, of_user(user_by_ws(old(self).users@, ws_id@).unwrap().id@)).unwrap().room
                    &&& m.user_id == user_by_ws(old(self).users@, ws_id@).unwrap().id
                    &&& m.content == message
                    &&& is_v4_uuid_text(m.id@)
                    &&& is_utc_rfc3339_text(m.created_at@)
                    &&& !has_key(old(self).messages@, m.id@)
                    &&& final(self).messages@ == old(self).messages@.push(m)
                },
                Err(_) => final(self).messages@ == old(self).messages@,
            },
            r is Err ==> holds_uuid_key(old(self).messages@),
            final(self).agrees_except(*old(self), Table::Messages),
            keeps_moves(old(self).tic_tac_toe_moves@, final(self).tic_tac_toe_moves@),
            old(self).wf() ==> final(self).wf(),
    {
        let current_user = self.find_user_by_ws(ws_id);
        let k = self.position_of_membership(&current_user.id).unwrap();
        let room_id = self.room_to_users[k].room.clone();
        let new_message = Message {
            id: new_uuid_text(),
            room_id,
            user_id: current_user.id,
            content: message,
            created_at: iso_date(),
        };
        let kept = new_message.copy();
        match self.insert_message(new_message) {
            Ok(()) => Ok(kept),
            Err(e) => Err(e),
        }
    }

    /// Every room with the users in it. A membership counts when its user
    /// and its room are stored; rooms with no such membership come with no
    /// users. The rooms come in stored order.
    pub fn get_rooms_with_users(&self) -> (r: Vec<RoomResponse>)
        requires
            keys_distinct(self.rooms@),
        ensures
            r@.len() == self.rooms@.len(),
            forall|i: int| 0 <= i < r@.len() ==> #[trigger] r@[i].room == self.rooms@[i]
                && r@[i].users@ == self.room_to_users@.filter_map(listed_under(self.users@, self.rooms@, self.rooms@[i])),
    {
        let mut lists: Vec<Vec<User>> = Vec::new();
        let mut e: usize = 0;
        while e < self.rooms.len()
            invariant
                e <= self.rooms@.len(),
                lists@.len() == e,
                forall|a: int| 0 <= a < e ==> #[trigger] lists@[a]@ == Seq::<User>::empty(),
            decreases self.rooms@.len() - e,
        {
            lists.push(Vec::new());
            e = e + 1;
        }
        let mut i: usize = 0;
        while i < self.room_to_users.len()
            invariant
                i <= self.room_to_users@.len(),
                keys_distinct(self.rooms@),
                lists@.len() == self.rooms@.len(),
                forall|a: int| 0 <= a < lists@.len() ==> #[trigger] lists@[a]@
                    == self.room_to_users@.take(i as int).filter_map(listed_under(self.users@, self.rooms@, self.rooms@[a])),
            decreases self.room_to_users@.len() - i,
        {
            let ghost before = lists@;
            let d = &self.room_to_users[i];
            let found_user = position_of_key(&self.users, &d.user);
            let found_room = position_of_key(&self.rooms, &d.room);
            proof {
                assert forall|a: int| 0 <= a < lists@.len() implies
                    #[trigger] self.room_to_users@.take(i + 1).filter_map(listed_under(self.users@, self.rooms@, self.rooms@[a]))
                    == self.room_to_users@.take(i as int).filter_map(listed_under(self.users@, self.rooms@, self.rooms@[a]))
                        + match listed_under(self.users@, self.rooms@, self.rooms@[a])(*d) {
                            Some(u) => seq![u],
                            None => Seq::empty(),
                        } by {
                    self.room_to_users@.lemma_filter_map_take_succ(listed_under(self.users@, self.rooms@, self.rooms@[a]), i as int);
                }
            }
            match (found_user, found_room) {
                (Some(ui), Some(ri)) => {
                    let mut cur: Vec<User> = Vec::new();
                    lists.set_and_swap(ri, &mut cur);
                    cur.push(self.users[ui].copy());
                    lists.set(ri, cur);
                    proof {
                        assert forall|a: int| 0 <= a < lists@.len() implies #[trigger] lists@[a]@
                            == self.room_to_users@.take(i + 1).filter_map(listed_under(self.users@, self.rooms@, self.rooms@[a])) by {
                            if a == ri {
                                assert(self.rooms@[ri as int].same(self.rooms@[a]));
                                assert(lists@[a]@ =~= before[a]@ + seq![self.users@[ui as int]]);
                            } else {
                                assert(self.rooms@[ri as int].key() != self.rooms@[a].key());
                                assert(!self.rooms@[ri as int].same(self.rooms@[a]));
                                assert(lists@[a] == before[a]);
                                assert(before[a]@ =~= before[a]@ + Seq::<User>::empty());
                            }
                        }
                    }
                },
                _ => {
                    proof {
                        assert forall|a: int| 0 <= a < lists@.len() implies #[trigger] lists@[a]@
                            == self.room_to_users@.take(i + 1).filter_map(listed_under(self.users@, self.rooms@, self.rooms@[a])) by {
                            assert(before[a]@ =~= before[a]@ + Seq::<User>::empty());
                        }
                    }
                },
            }
            i = i + 1;
        }
        assert(self.room_to_users@.take(self.room_to_users@.len() as int) =~= self.room_to_users@);
        let mut out: Vec<RoomResponse> = Vec::new();
        let mut j: usize = 0;
        while j < self.rooms.len()
            invariant
                j <= self.rooms@.len(),
                lists@.len() == self.rooms@.len(),
                out@.len() == j,
                forall|a: int| j <= a < lists@.len() ==> #[trigger] lists@[a]@
                    == self.room_to_users@.filter_map(listed_under(self.users@, self.rooms@, self.rooms@[a])),
                forall|a: int| 0 <= a < j ==> #[trigger] out@[a].room == self.rooms@[a]
                    && out@[a].users@ == self.room_to_users@.filter_map(listed_under(self.users@, self.rooms@, self.rooms@[a])),
            decreases self.rooms@.len() - j,
        {
            let mut cur: Vec<User> = Vec::new();
            lists.set_and_swap(j, &mut cur);
            out.push(RoomResponse { room: self.rooms[j].copy(), users: cur });
            j = j + 1;
        }
        out
    }


    /// The game's other player can be looked up: the user connected with
    /// session `ws` is known, and if game `game_id` is stored, its other
    /// player (the second player when that user is the first, the first
    /// otherwise) is set and stored.
    pub open spec fn opponent_known(self, game_id: Seq<char>, ws: Seq<char>) -> bool {
        &&& user_by_ws(self.users@, ws) is Some
        &&& match by_key(self.tic_tac_toe_games@, game_id) {
            Some(g) => if g.player_1@ == user_by_ws(self.users@, ws).unwrap().id@ {
                g.player_2 is Some && by_key(self.users@, g.player_2.unwrap()@) is Some
            } else {
                by_key(self.users@, g.player_1@) is Some
            },
            None => true,
        }
    }

    /// The websocket session of the other player of game `game_id`, seen
    /// from the user connected with session `ws`; empty when the game is
    /// not stored.
    pub open spec fn opponent_session(self, game_id: Seq<char>, ws: Seq<char>) -> Seq<char> {
        match by_key(self.tic_tac_toe_games@, game_id) {
            Some(g) => if g.player_1@ == user_by_ws(self.users@, ws).unwrap().id@ {
                by_key(self.users@, g.player_2.unwrap()@).unwrap().web_socket_session@
            } else {
                by_key(self.users@, g.player_1@).unwrap().web_socket_session@
            },
            None => Seq::empty(),
        }
    }

    /// The websocket session of the opponent of the user connected with
    /// session `ws_id` in game `game_id` (empty when there is no such game).
    pub fn get_oponent(&self, game_id: String, ws_id: String) -> (r: String)
        requires
            keys_distinct(self.tic_tac_toe_games@),
            self.opponent_known(game_id@, ws_id@),
        ensures
            r@ == self.opponent_session(game_id@, ws_id@),
    {
        let current_user = self.find_user_by_ws(ws_id);
        match position_of_key(&self.tic_tac_toe_games, &game_id) {
            Some(gi) => {
                let g = &self.tic_tac_toe_games[gi];
                if g.player_1 == current_user.id {
                    let p2 = match &g.player_2 {
                        Some(p) => p,
                        None => {
                            assert(false);
                            return String::new();
                        },
                    };
                    let ui = position_of_key(&self.users, p2).unwrap();
                    self.users[ui].web_socket_session.clone()
                } else {
                    let ui = position_of_key(&self.users, &g.player_1).unwrap();
                    self.users[ui].web_socket_session.clone()
                }
            },
            None => String::new(),
        }
    }

    /// Whether some membership puts user `user_id` in room `room_id`.
    fn has_membership_of(&self, room_id: &String, user_id: &String) -> (r: bool)
        ensures
            r == has_membership(self.room_to_users@, room_id@, user_id@),
    {
        let mut i: usize = 0;
        while i < self.room_to_users.len()
            invariant
                i <= self.room_to_users@.len(),
                forall|j: int| 0 <= j < i ==> !#[trigger] membership_is(room_id@, user_id@)(self.room_to_users@[j]),
            decreases self.room_to_users@.len() - i,
        {
            if self.room_to_users[i].room == *room_id && self.room_to_users[i].user == *user_id {
                assert(membership_is(room_id@, user_id@)(self.room_to_users@[i as int]));
                return true;
            }
            i = i + 1;
        }
        false
    }

    /// Puts user `user_id` in room `room_id` under a fresh membership id,
    /// unless some membership already does. Answers the membership row
    /// made with the fresh id in both cases; refused when it had to be
    /// stored and the fresh id is taken.
    pub fn join_room(&mut self, room_id: &str, user_id: &str) -> (r: Result<RoomToUser, DbError>)
        ensures
            match r {
                Ok(row) => {
                    &&& row.room@ == room_id@
                    &&& row.user@ == user_id@
                    &&& is_v4_uuid_text(row.id@)
                    &&& if has_membership(old(self).room_to_users@, room_id@, user_id@) {
                        final(self).room_to_users@ == old(self).room_to_users@
                    } else {
                        &&& !has_key(old(self).room_to_users@, row.id@)
                        &&& final(self).room_to_users@ == old(self).room_to_users@.push(row)
                    }
                },
                Err(_) => {
                    &&& !has_membership(old(self).room_to_users@, room_id@, user_id@)
                    &&& final(self).room_to_users@ == old(self).room_to_users@
                },
            },
            r is Err ==> holds_uuid_key(old(self).room_to_users@),
            final(self).agrees_except(*old(self), Table::RoomToUsers),
            keeps_moves(old(self).tic_tac_toe_moves@, final(self).tic_tac_toe_moves@),
            old(self).wf() ==> final(self).wf(),
    {
        let room = String::from_str(room_id);
        let user = String::from_str(user_id);
        let exists = self.has_membership_of(&room, &user);
        let new_room_to_user = RoomToUser { id: new_uuid_text(), room, user };
        if exists {
            Ok(new_room_to_user)
        } else {
            let kept = new_room_to_user.copy();
            match self.insert_room_to_user(new_room_to_user) {
                Ok(()) => Ok(kept),
                Err(e) => Err(e),
            }
        }
    }

    /// Makes user `user_id` the second player of game `game_id`, and gives
    /// that user the turn.
    pub fn join_game(&mut self, game_id: &str, user_id: &str)
        ensures
            final(self).tic_tac_toe_games@.len() == old(self).tic_tac_toe_games@.len(),
            forall|i: int| 0 <= i < old(self).tic_tac_toe_games@.len() ==>
                if old(self).tic_tac_toe_games@[i].id@ == game_id@ {
                    joined(#[trigger] final(self).tic_tac_toe_games@[i], old(self).tic_tac_toe_games@[i], user_id@)
                } else {
                    final(self).tic_tac_toe_games@[i] == old(self).tic_tac_toe_games@[i]
                },
            final(self).agrees_except(*old(self), Table::Games),
            keeps_moves(old(self).tic_tac_toe_moves@, final(self).tic_tac_toe_moves@),
            old(self).wf() ==> final(self).wf(),
    {
        let gid = String::from_str(game_id);
        let user = String::from_str(user_id);
        let ghost before = self.tic_tac_toe_games@;
        let mut i: usize = 0;
        while i < self.tic_tac_toe_games.len()
            invariant
                i <= self.tic_tac_toe_games@.len(),
                self.tic_tac_toe_games@.len() == before.len(),
                gid@ == game_id@,
                user@ == user_id@,
                forall|j: int| 0 <= j < i ==>
                    if before[j].id@ == game_id@ {
                        joined(#[trigger] self.tic_tac_toe_games@[j], before[j], user_id@)
                    } else {
                        self.tic_tac_toe_games@[j] == before[j]
                    },
                forall|j: int| i <= j < before.len() ==> #[trigger] self.tic_tac_toe_games@[j] == before[j],
                self.agrees_except(*old(self), Table::Games),
            decreases before.len() - i,
        {
            if self.tic_tac_toe_games[i].id == gid {
                let g = self.tic_tac_toe_games[i].copy();
                let changed = TicTacToeGame { player_2: Some(user.clone()), turn: Some(user.clone()), ..g };
                self.tic_tac_toe_games.set(i, changed);
            }
            i = i + 1;
        }
        proof {
            if old(self).wf() {
                assert forall|a: int, b: int| 0 <= a < b < self.tic_tac_toe_games@.len() implies
                    #[trigger] self.tic_tac_toe_games@[a].key() != #[trigger] self.tic_tac_toe_games@[b].key() by {
                    assert(self.tic_tac_toe_games@[a].id == before[a].id);
                    assert(self.tic_tac_toe_games@[b].id == before[b].id);
                    assert(before[a].key() != before[b].key());
                }
            }
        }
    }

    /// Takes user `user_id` out of room `room_id`: removes every membership
    /// that puts the user in the room.
    pub fn leave_room(&mut self, room_id: &str, user_id: &str)
        ensures
            final(self).room_to_users@ == old(self).room_to_users@.filter(not_membership(room_id@, user_id@)),
            final(self).agrees_except(*old(self), Table::RoomToUsers),
            keeps_moves(old(self).tic_tac_toe_moves@, final(self).tic_tac_toe_moves@),
            old(self).wf() ==> final(self).wf(),
    {
        let room = String::from_str(room_id);
        let user = String::from_str(user_id);
        let ghost keep = not_membership(room_id@, user_id@);
        let mut kept: Vec<RoomToUser> = Vec::new();
        let mut i: usize = 0;
        while i < self.room_to_users.len()
            invariant
                i <= self.room_to_users@.len(),
                room@ == room_id@,
                user@ == user_id@,
                kept@ == self.room_to_users@.take(i as int).filter(not_membership(room_id@, user_id@)),
            decreases self.room_to_users@.len() - i,
        {
            proof {
                lemma_filter_take_succ(self.room_to_users@, not_membership(room_id@, user_id@), i as int);
            }
            if !(self.room_to_users[i].room == room && self.room_to_users[i].user == user) {
                kept.push(self.room_to_users[i].copy());
            }
            i = i + 1;
        }
        proof {
            assert(self.room_to_users@.take(self.room_to_users@.len() as int) =~= self.room_to_users@);
            let old_rows = self.room_to_users@;
            if keys_distinct(old_rows) {
                assert forall|a: int, b: int| 0 <= a < b < kept@.len() implies
                    #[trigger] kept@[a].key() != #[trigger] kept@[b].key() by {
                    lemma_filter_keys_distinct(old_rows, keep);
                }
            }
        }
        self.room_to_users = kept;
    }

    /// Opens a game of tic-tac-toe by the user connected with session
    /// `ws_id`: a fresh id, that user as first player, no second player, no
    /// turn, status "Active". Refused when the fresh id is taken.
    pub fn create_tic_tac_toe(&mut self, ws_id: String) -> (r: Result<TicTacToeGame, DbError>)
        requires
            user_by_ws(old(self).users@, ws_id@) is Some,
        ensures
            match r {
                Ok(g) => {
                    &&& g.player_1 == user_by_ws(old(self).users@, ws_id@).unwrap().id
                    &&& g.player_2 is None
                    &&& g.turn is None
                    &&& g.game_status@ == "Active"@
                    &&& is_v4_uuid_text(g.id@)
                    &&& is_utc_rfc3339_text(g.created_at@)
                    &&& !has_key(old(self).tic_tac_toe_games@, g.id@)
                    &&& final(self).tic_tac_toe_games@ == old(self).tic_tac_toe_games@.push(g)
                },
                Err(_) => final(self).tic_tac_toe_games@ == old(self).tic_tac_toe_games@,
            },
            r is Err ==> holds_uuid_key(old(self).tic_tac_toe_games@),
            final(self).agrees_except(*old(self), Table::Games),
            keeps_moves(old(self).tic_tac_toe_moves@, final(self).tic_tac_toe_moves@),
            old(self).wf() ==> final(self).wf(),
    {
        let current_user = self.find_user_by_ws(ws_id);
        let new_game = TicTacToeGame {
            id: new_uuid_text(),
            player_1: current_user.id,
            player_2: None,
            turn: None,
            game_status: String::from_str("Active"),
            created_at: iso_date(),
        };
        let kept = new_game.copy();
        match self.insert_game(new_game) {
            Ok(()) => Ok(kept),
            Err(e) => Err(e),
        }
    }

    /// Whether it is user `user_id`'s turn in game `game_id`.
    pub fn your_turn(&self, game_id: String, user_id: String) -> (r: bool)
        requires
            by_key(self.tic_tac_toe_games@, game_id@) is Some,
        ensures
            r == has_turn(self.tic_tac_toe_games@, game_id@, user_id@),
    {
        let gi = position_of_key(&self.tic_tac_toe_games, &game_id).unwrap();
        match &self.tic_tac_toe_games[gi].turn {
            Some(t) => *t == user_id,
            None => false,
        }
    }

    /// Whether square (`row_number`, `column_number`) is still free in game
    /// `game_id`: no move of that game marks it.
    pub fn legal_move(&self, game_id: String, row_number: i32, column_number: i32) -> (r: bool)
        ensures
            r == !square_taken(self.tic_tac_toe_moves@, game_id@, row_number, column_number),
    {
        let mut i: usize = 0;
        while i < self.tic_tac_toe_moves.len()
            invariant
                i <= self.tic_tac_toe_moves@.len(),
                forall|j: int| 0 <= j < i ==> !#[trigger] on_square(game_id@, row_number, column_number)(self.tic_tac_toe_moves@[j]),
            decreases self.tic_tac_toe_moves@.len() - i,
        {
            let m = &self.tic_tac_toe_moves[i];
            if m.game_id == game_id && m.row_number == row_number && m.column_number == column_number {
                assert(on_square(game_id@, row_number, column_number)(self.tic_tac_toe_moves@[i as int]));
                return false;
            }
            i = i + 1;
        }
        true
    }

    /// The status of game `game_id`.
    pub fn get_game_result(&self, game_id: String) -> (r: String)
        requires
            by_key(self.tic_tac_toe_games@, game_id@) is Some,
        ensures
            r == by_key(self.tic_tac_toe_games@, game_id@).unwrap().game_status,
    {
        let gi = position_of_key(&self.tic_tac_toe_games, &game_id).unwrap();
        self.tic_tac_toe_games[gi].game_status.clone()
    }


    /// Stores move `new_move` under a fresh id and the current time, and
    /// nothing else. Refused, with nothing changed, when the fresh id is
    /// taken, which can happen only when a stored move id has the form of a
    /// random id.
    pub fn record_move(&mut self, new_move: &NewTicTacToeMove) -> (r: Result<TicTacToeMove, DbError>)
        ensures
            match r {
                Ok(mv) => {
                    &&& mv.player_id == new_move.player_id
                    &&& mv.game_id == new_move.game_id
                    &&& mv.row_number == new_move.row_number
                    &&& mv.column_number == new_move.column_number
                    &&& is_v4_uuid_text(mv.id@)
                    &&& is_utc_rfc3339_text(mv.created_at@)
                    &&& !has_key(old(self).tic_tac_toe_moves@, mv.id@)
                    &&& final(self).tic_tac_toe_moves@ == old(self).tic_tac_toe_moves@.push(mv)
                },
                Err(_) => final(self).tic_tac_toe_moves@ == old(self).tic_tac_toe_moves@,
            },
            r is Err ==> holds_uuid_key(old(self).tic_tac_toe_moves@),
            final(self).agrees_except(*old(self), Table::Moves),
            keeps_moves(old(self).tic_tac_toe_moves@, final(self).tic_tac_toe_moves@),
            old(self).wf() ==> final(self).wf(),
    {
        let tic_tac_toe_move = TicTacToeMove {
            id: new_uuid_text(),
            player_id: new_move.player_id.clone(),
            game_id: new_move.game_id.clone(),
            row_number: new_move.row_number,
            column_number: new_move.column_number,
            created_at: iso_date(),
        };
        let kept = tic_tac_toe_move.copy();
        match self.insert_move(tic_tac_toe_move) {
            Ok(()) => Ok(kept),
            Err(e) => Err(e),
        }
    }

    /// Records move `new_move` under a fresh id and the current time, then
    /// passes the turn of its game: to the second player after the first
    /// player moved, to the first player after anyone else. Refused, with
    /// nothing changed, when the fresh id is taken.
    pub fn insert_new_move(&mut self, new_move: NewTicTacToeMove) -> (r: Result<TicTacToeMove, DbError>)
        requires
            by_key(old(self).tic_tac_toe_games@, new_move.game_id@) is Some,
            new_move.player_id@ == by_key(old(self).tic_tac_toe_games@, new_move.game_id@).unwrap().player_1@
                ==> by_key(old(self).tic_tac_toe_games@, new_move.game_id@).unwrap().player_2 is Some,
        ensures
            match r {
                Ok(mv) => {
                    &&& mv.player_id == new_move.player_id
                    &&& mv.game_id == new_move.game_id
                    &&& mv.row_number == new_move.row_number
                    &&& mv.column_number == new_move.column_number
                    &&& is_v4_uuid_text(mv.id@)
                    &&& is_utc_rfc3339_text(mv.created_at@)
                    &&& !has_key(old(self).tic_tac_toe_moves@, mv.id@)
                    &&& final(self).tic_tac_toe_moves@ == old(self).tic_tac_toe_moves@.push(mv)
                    &&& final(self).tic_tac_toe_games@ == old(self).tic_tac_toe_games@.map_values(
                        turn_set(
                            new_move.game_id@,
                            next_turn(by_key(old(self).tic_tac_toe_games@, new_move.game_id@).unwrap(), new_move.player_id@),
                        ),
                    )
                },
                Err(_) => final(self).same_rows(*old(self)),
            },
            r is Err ==> holds_uuid_key(old(self).tic_tac_toe_moves@),
            final(self).users@ == old(self).users@,
            final(self).rooms@ == old(self).rooms@,
            final(self).room_to_users@ == old(self).room_to_users@,
            final(self).messages@ == old(self).messages@,
            keeps_moves(old(self).tic_tac_toe_moves@, final(self).tic_tac_toe_moves@),
            old(self).wf() ==> final(self).wf(),
    {
        let kept = match self.record_move(&new_move) {
            Ok(m) => m,
            Err(e) => {
                return Err(e);
            },
        };
        let gi = position_of_key(&self.tic_tac_toe_games, &new_move.game_id).unwrap();
        let g = &self.tic_tac_toe_games[gi];
        let new_turn = if new_move.player_id == g.player_1 {
            match &g.player_2 {
                Some(p) => p.clone(),
                None => {
                    assert(false);
                    String::new()
                },
            }
        } else {
            g.player_1.clone()
        };
        let ghost turn_now = next_turn(by_key(old(self).tic_tac_toe_games@, new_move.game_id@).unwrap(), new_move.player_id@);
        assert(new_turn == turn_now);
        let ghost before = self.tic_tac_toe_games@;
        let mut i: usize = 0;
        while i < self.tic_tac_toe_games.len()
            invariant
                i <= self.tic_tac_toe_games@.len(),
                self.tic_tac_toe_games@.len() == before.len(),
                forall|j: int| 0 <= j < i ==> #[trigger] self.tic_tac_toe_games@[j]
                    == turn_set(new_move.game_id@, new_turn)(before[j]),
                forall|j: int| i <= j < before.len() ==> #[trigger] self.tic_tac_toe_games@[j] == before[j],
                self.users@ == old(self).users@,
                self.rooms@ == old(self).rooms@,
                self.room_to_users@ == old(self).room_to_users@,
                self.messages@ == old(self).messages@,
                self.tic_tac_toe_moves@ == old(self).tic_tac_toe_moves@.push(kept),
            decreases before.len() - i,
        {
            if self.tic_tac_toe_games[i].id == new_move.game_id {
                let g = self.tic_tac_toe_games[i].copy();
                let changed = TicTacToeGame { turn: Some(new_turn.clone()), ..g };
                self.tic_tac_toe_games.set(i, changed);
            }
            assert(self.tic_tac_toe_games@[i as int] == turn_set(new_move.game_id@, new_turn)(before[i as int]));
            i = i + 1;
        }
        proof {
            assert(self.tic_tac_toe_games@ =~= before.map_values(turn_set(new_move.game_id@, new_turn)));
            if old(self).wf() {
                assert forall|a: int, b: int| 0 <= a < b < self.tic_tac_toe_games@.len() implies
                    #[trigger] self.tic_tac_toe_games@[a].key() != #[trigger] self.tic_tac_toe_games@[b].key() by {
                    assert(self.tic_tac_toe_games@[a] == turn_set(new_move.game_id@, new_turn)(before[a]));
                    assert(self.tic_tac_toe_games@[b] == turn_set(new_move.game_id@, new_turn)(before[b]));
                    assert(before[a].key() != before[b].key());
                }
            }
        }
        Ok(kept)
    }

    /// The squares player `player` has marked in game `game`.
    pub fn collect_marks(&self, game: &String, player: &String) -> (r: Vec<Square>)
        ensures
            r@ == marks_of(self.tic_tac_toe_moves@, game@, player@),
    {
        let mut out: Vec<Square> = Vec::new();
        let mut i: usize = 0;
        while i < self.tic_tac_toe_moves.len()
            invariant
                i <= self.tic_tac_toe_moves@.len(),
                out@ == self.tic_tac_toe_moves@.take(i as int).filter(move_of(game@, player@)).map_values(square_of()),
            decreases self.tic_tac_toe_moves@.len() - i,
        {
            proof {
                lemma_filter_take_succ(self.tic_tac_toe_moves@, move_of(game@, player@), i as int);
                let prev = self.tic_tac_toe_moves@.take(i as int).filter(move_of(game@, player@));
                assert(prev.push(self.tic_tac_toe_moves@[i as int]).map_values(square_of())
                    =~= prev.map_values(square_of()).push(square_of()(self.tic_tac_toe_moves@[i as int])));
            }
            let m = &self.tic_tac_toe_moves[i];
            if m.game_id == *game && m.player_id == *player {
                out.push((m.row_number, m.column_number));
            }
            i = i + 1;
        }
        assert(self.tic_tac_toe_moves@.take(self.tic_tac_toe_moves@.len() as int) =~= self.tic_tac_toe_moves@);
        out
    }

    /// Sets the status of every game with id `game` to `status`.
    fn set_game_status(&mut self, game: &String, status: &String)
        ensures
            final(self).tic_tac_toe_games@ == old(self).tic_tac_toe_games@.map_values(status_set(game@, *status)),
            final(self).agrees_except(*old(self), Table::Games),
            old(self).wf() ==> final(self).wf(),
    {
        let ghost before = self.tic_tac_toe_games@;
        let mut i: usize = 0;
        while i < self.tic_tac_toe_games.len()
            invariant
                i <= self.tic_tac_toe_games@.len(),
                self.tic_tac_toe_games@.len() == before.len(),
                forall|j: int| 0 <= j < i ==> #[trigger] self.tic_tac_toe_games@[j] == status_set(game@, *status)(before[j]),
                forall|j: int| i <= j < before.len() ==> #[trigger] self.tic_tac_toe_games@[j] == before[j],
                self.agrees_except(*old(self), Table::Games),
            decreases before.len() - i,
        {
            if self.tic_tac_toe_games[i].id == *game {
                let g = self.tic_tac_toe_games[i].copy();
                let changed = TicTacToeGame { game_status: status.clone(), ..g };
                self.tic_tac_toe_games.set(i, changed);
            }
            assert(self.tic_tac_toe_games@[i as int] == status_set(game@, *status)(before[i as int]));
            i = i + 1;
        }
        proof {
            assert(self.tic_tac_toe_games@ =~= before.map_values(status_set(game@, *status)));
            if old(self).wf() {
                assert forall|a: int, b: int| 0 <= a < b < self.tic_tac_toe_games@.len() implies
                    #[trigger] self.tic_tac_toe_games@[a].key() != #[trigger] self.tic_tac_toe_games@[b].key() by {
                    assert(self.tic_tac_toe_games@[a] == status_set(game@, *status)(before[a]));
                    assert(self.tic_tac_toe_games@[b] == status_set(game@, *status)(before[b]));
                    assert(before[a].key() != before[b].key());
                }
            }
        }
    }

    /// Settles game `new_move.game_id` after `new_move.player_id` moved.
    /// When the player's marks count three on a line, the game is won: by
    /// player 1 if the mover is the game's first player, by player 2
    /// otherwise. Else, when the player has marked five squares, it is a
    /// draw. In both cases the game's status is set to the answer. Else the
    /// game stays "Active".
    pub fn game_result(&mut self, new_move: NewTicTacToeMove) -> (r: String)
        requires
            on_board(marks_of(old(self).tic_tac_toe_moves@, new_move.game_id@, new_move.player_id@)),
            has_line_of_three(marks_of(old(self).tic_tac_toe_moves@, new_move.game_id@, new_move.player_id@))
                ==> by_key(old(self).tic_tac_toe_games@, new_move.game_id@) is Some,
        ensures
            ({
                let marks = marks_of(old(self).tic_tac_toe_moves@, new_move.game_id@, new_move.player_id@);
                if has_line_of_three(marks) {
                    &&& r@ == won_status(by_key(old(self).tic_tac_toe_games@, new_move.game_id@).unwrap(), new_move.player_id@)
                    &&& final(self).tic_tac_toe_games@ == old(self).tic_tac_toe_games@.map_values(status_set(new_move.game_id@, r))
                } else if marks.len() == 5 {
                    &&& r@ == "draw"@
                    &&& final(self).tic_tac_toe_games@ == old(self).tic_tac_toe_games@.map_values(status_set(new_move.game_id@, r))
                } else {
                    &&& r@ == "Active"@
                    &&& final(self).tic_tac_toe_games@ == old(self).tic_tac_toe_games@
                }
            }),
            final(self).agrees_except(*old(self), Table::Games),
            keeps_moves(old(self).tic_tac_toe_moves@, final(self).tic_tac_toe_moves@),
            old(self).wf() ==> final(self).wf(),
    {
        let your_moves = self.collect_marks(&new_move.game_id, &new_move.player_id);
        let nr_of_moves = your_moves.len();
        if has_winning_line(&your_moves) {
            let gi = position_of_key(&self.tic_tac_toe_games, &new_move.game_id).unwrap();
            let new_status = if new_move.player_id == self.tic_tac_toe_games[gi].player_1 {
                String::from_str("player_1_won")
            } else {
                String::from_str("player_2_won")
            };
            self.set_game_status(&new_move.game_id, &new_status);
            return new_status;
        }
        if nr_of_moves == 5 {
            let draw = String::from_str("draw");
            self.set_game_status(&new_move.game_id, &draw);
            return draw;
        }
        String::from_str("Active")
    }


    /// Whether every membership of room `room_id` names a stored user.
    pub fn can_list_room(&self, room_id: &String) -> (r: bool)
        ensures
            r == members_known(self.users@, self.room_to_users@, room_id@),
    {
        let mut i: usize = 0;
        while i < self.room_to_users.len()
            invariant
                i <= self.room_to_users@.len(),
                forall|j: int| 0 <= j < i && #[trigger] self.room_to_users@[j].room@ == room_id@
                    ==> by_key(self.users@, self.room_to_users@[j].user@) is Some,
            decreases self.room_to_users@.len() - i,
        {
            if self.room_to_users[i].room == *room_id {
                if position_of_key(&self.users, &self.room_to_users[i].user).is_none() {
                    assert(self.room_to_users@[i as int].room@ == room_id@);
                    return false;
                }
            }
            i = i + 1;
        }
        true
    }

    /// Whether the room of the user connected with session `ws` can be
    /// looked up.
    pub fn can_find_current_room(&self, ws: &String) -> (r: bool)
        ensures
            r == self.current_room_known(ws@),
    {
        match self.position_of_ws(ws) {
            None => false,
            Some(ui) => match self.position_of_membership(&self.users[ui].id) {
                None => true,
                Some(k) => position_of_key(&self.rooms, &self.room_to_users[k].room).is_some(),
            },
        }
    }

    /// Whether the opponent of the user connected with session `ws` in
    /// game `game_id` can be looked up.
    pub fn can_find_opponent(&self, game_id: &String, ws: &String) -> (r: bool)
        ensures
            r == self.opponent_known(game_id@, ws@),
    {
        match self.position_of_ws(ws) {
            None => false,
            Some(ui) => match position_of_key(&self.tic_tac_toe_games, game_id) {
                None => true,
                Some(gi) => {
                    let g = &self.tic_tac_toe_games[gi];
                    if g.player_1 == self.users[ui].id {
                        match &g.player_2 {
                            Some(p) => position_of_key(&self.users, p).is_some(),
                            None => false,
                        }
                    } else {
                        position_of_key(&self.users, &g.player_1).is_some()
                    }
                },
            },
        }
    }

    /// Whether the games table has distinct primary keys.
    pub fn game_keys_distinct(&self) -> (r: bool)
        ensures
            r == keys_distinct(self.tic_tac_toe_games@),
    {
        table_keys_distinct(&self.tic_tac_toe_games)
    }

    /// Whether every table has distinct primary keys.
    pub fn check_keys(&self) -> (r: bool)
        ensures
            r == self.wf(),
    {
        table_keys_distinct(&self.users) && table_keys_distinct(&self.rooms)
            && table_keys_distinct(&self.room_to_users) && table_keys_distinct(&self.messages)
            && table_keys_distinct(&self.tic_tac_toe_games) && table_keys_distinct(&self.tic_tac_toe_moves)
    }


    /// The user connected with session `ws`, if any.
    pub fn lookup_user_by_ws(&self, ws: &String) -> (r: Option<User>)
        ensures
            r == user_by_ws(self.users@, ws@),
    {
        match self.position_of_ws(ws) {
            Some(i) => Some(self.users[i].copy()),
            None => None,
        }
    }

    /// The first membership of user `user`, if any.
    pub fn first_membership_of(&self, user: &String) -> (r: Option<RoomToUser>)
        ensures
            r == first(self.room_to_users@, of_user(user@)),
    {
        match self.position_of_membership(user) {
            Some(i) => Some(self.room_to_users[i].copy()),
            None => None,
        }
    }

    /// The game with id `game_id`, if any.
    pub fn find_game(&self, game_id: &String) -> (r: Option<TicTacToeGame>)
        ensures
            r == by_key(self.tic_tac_toe_games@, game_id@),
    {
        match position_of_key(&self.tic_tac_toe_games, game_id) {
            Some(i) => Some(self.tic_tac_toe_games[i].copy()),
            None => None,
        }
    }

    /// Registers a user with name `nm` and phone `pn`: a fresh id, session
    /// "0" and the current time. Refused when the fresh id is taken.
    pub fn insert_new_user(&mut self, nm: &str, pn: &str) -> (r: Result<User, DbError>)
        ensures
            match r {
                Ok(u) => {
                    &&& u.username@ == nm@
                    &&& u.phone@ == pn@
                    &&& u.web_socket_session@ == seq!['0']
                    &&& is_v4_uuid_text(u.id@)
                    &&& is_utc_rfc3339_text(u.created_at@)
                    &&& !has_key(old(self).users@, u.id@)
                    &&& final(self).users@ == old(self).users@.push(u)
                },
                Err(_) => final(self).users@ == old(self).users@,
            },
            r is Err ==> holds_uuid_key(old(self).users@),
            final(self).agrees_except(*old(self), Table::Users),
            keeps_moves(old(self).tic_tac_toe_moves@, final(self).tic_tac_toe_moves@),
            old(self).wf() ==> final(self).wf(),
    {
        let zero = String::from_str("0");
        proof {
            reveal_strlit("0");
        }
        let new_user = User {
            id: new_uuid_text(),
            username: nm.to_owned(),
            phone: pn.to_owned(),
            web_socket_session: zero,
            created_at: iso_date(),
        };
        let kept = new_user.copy();
        match self.insert_user(new_user) {
            Ok(()) => Ok(kept),
            Err(e) => Err(e),
        }
    }
}

} // verus!
