//! The chat server's registry: the connected websocket sessions, the named
//! rooms they are in, and who receives each message.
//!
//! Sessions are numbered; a room holds a set of session numbers. Messages
//! for a room in the lobby's tables go to the sessions of that room's users
//! (users store their session number as decimal text); messages for a game
//! go to the opponent and to the sender.
use vstd::prelude::*;
use vstd::string::*;
use crate::db::{keeps_moves, keys_distinct, members_known, not_membership, room_members, user_by_ws, Store, Table};
use crate::decimal::{decimal, parse_decimal, parse_usize, usize_to_decimal};
use crate::fresh::random_session_id;
use crate::models::{Room, RoomToUser, User};
use std::collections::HashSet;

verus! {

/// A text sent to a websocket session.
#[derive(Clone, Debug, PartialEq, Eq)]
pub struct Message(pub String);

/// A session has gone.
#[derive(Clone, Debug, PartialEq, Eq)]
pub struct Disconnect {
    pub id: usize,
}

/// A session sends `msg` to a room of the lobby, to a game, or both.
#[derive(Clone, Debug, PartialEq, Eq)]
pub struct ClientMessage {
    pub id: usize,
    pub msg: String,
    pub room: Option<String>,
    pub game: Option<String>,
}

/// A request for the names of the server's rooms.
#[derive(Clone, Debug, PartialEq, Eq)]
pub struct ListRooms;

/// A session moves to the server room `name`.
#[derive(Clone, Debug, PartialEq, Eq)]
pub struct Join {
    pub id: usize,
    pub name: String,
}

/// Where a message went: the sessions it reached, in order, and whether
/// the sending stopped with a fault (the actor must then panic, after
/// reaching those sessions).
#[derive(Clone, Debug, PartialEq, Eq)]
pub struct Dispatch {
    pub to: Vec<usize>,
    pub fault: bool,
}

/// The notice to one room that a session left it.
#[derive(Clone, Debug, PartialEq, Eq)]
pub struct Notice {
    pub room: String,
    pub to: Vec<usize>,
}

/// A user who left a room when their session went, and the sessions told.
#[derive(Clone, Debug, PartialEq, Eq)]
pub struct Departure {
    pub room: Room,
    pub user: User,
    pub to: Vec<usize>,
}

/// What a closed session leads to: the departure from the room of the
/// lobby, if the session's user was in one, and whether a fault stopped it.
#[derive(Clone, Debug, PartialEq, Eq)]
pub struct DisconnectOutcome {
    pub departure: Option<Departure>,
    pub fault: bool,
}

/// What a move to another server room leads to: the notices to the rooms
/// the session left, and whether a fault stopped it.
#[derive(Clone, Debug, PartialEq, Eq)]
pub struct JoinOutcome {
    pub notices: Vec<Notice>,
    pub fault: bool,
}

/// A named room of the server and the sessions in it.
pub struct ChatRoom {
    name: String,
    sessions: Vec<usize>,
}

/// The registry as mathematics: the connected sessions, and for each room
/// name the sessions in that room.
pub struct ChatServerView {
    pub sessions: Set<usize>,
    pub rooms: Map<Seq<char>, Set<usize>>,
}

/// The chat server's registry.
pub struct ChatServer {
    sessions: HashSet<usize>,
    rooms: Vec<ChatRoom>,
}

/// The views of some texts.
pub open spec fn texts(v: Seq<String>) -> Seq<Seq<char>> {
    v.map_values(|s: String| s@)
}

/// The rooms some notices went to.
pub open spec fn notice_rooms(v: Seq<Notice>) -> Seq<Seq<char>> {
    v.map_values(|n: Notice| n.room@)
}

/// Every room without session `id`.
pub open spec fn without_session(rooms: Map<Seq<char>, Set<usize>>, id: usize) -> Map<Seq<char>, Set<usize>> {
    rooms.map_values(|s: Set<usize>| s.remove(id))
}

/// Every session in a room of the registry is connected.
pub open spec fn rooms_hold_connected(v: ChatServerView) -> bool {
    forall|n: Seq<char>, x: usize| v.rooms.contains_key(n) && #[trigger] v.rooms[n].contains(x) ==> v.sessions.contains(x)
}

/// A connected session put in a room keeps every room's sessions connected.
proof fn lemma_connect_keeps_rooms_connected(before: ChatServerView, after: ChatServerView, id: usize)
    requires
        rooms_hold_connected(before),
        after.sessions == before.sessions.insert(id),
        after.rooms == before.rooms.insert(
            "main"@,
            (if before.rooms.contains_key("main"@) {
                before.rooms["main"@]
            } else {
                Set::<usize>::empty()
            }).insert(id),
        ),
    ensures
        rooms_hold_connected(after),
{
    assert forall|n: Seq<char>, x: usize| after.rooms.contains_key(n) && #[trigger] after.rooms[n].contains(x)
        implies after.sessions.contains(x) by {
        if n != "main"@ {
            assert(before.rooms[n].contains(x));
        } else if x != id {
            assert(before.rooms.contains_key(n) && before.rooms[n].contains(x));
        }
    }
}

/// Taking a session out of the registry keeps every room's sessions
/// connected; and when all of them were connected, the session is taken
/// out of every room whether or not it was connected.
proof fn lemma_disconnect_keeps_rooms_connected(before: ChatServerView, after: ChatServerView, id: usize)
    requires
        rooms_hold_connected(before),
        after.sessions == before.sessions.remove(id),
        after.rooms == if before.sessions.contains(id) {
            without_session(before.rooms, id)
        } else {
            before.rooms
        },
    ensures
        rooms_hold_connected(after),
        after.rooms == without_session(before.rooms, id),
{
    if !before.sessions.contains(id) {
        assert(without_session(before.rooms, id) =~= before.rooms) by {
            assert forall|n: Seq<char>| #[trigger] before.rooms.contains_key(n) implies without_session(before.rooms, id)[n]
                == before.rooms[n] by {
                assert(!before.rooms[n].contains(id));
                assert(before.rooms[n].remove(id) =~= before.rooms[n]);
            }
        }
    }
    assert forall|n: Seq<char>, x: usize| after.rooms.contains_key(n) && #[trigger] after.rooms[n].contains(x)
        implies after.sessions.contains(x) by {
        assert(before.rooms[n].remove(id).contains(x));
        assert(before.rooms[n].contains(x));
    }
}

/// No two rooms share a name.
spec fn names_distinct(rs: Seq<ChatRoom>) -> bool {
    forall|i: int, j: int| 0 <= i < j < rs.len() ==> #[trigger] rs[i].name@ != #[trigger] rs[j].name@
}

/// Some room is named `n`.
spec fn named(rs: Seq<ChatRoom>, n: Seq<char>) -> bool {
    exists|i: int| 0 <= i < rs.len() && #[trigger] rs[i].name@ == n
}

/// The rooms as a map from name to sessions.
spec fn rooms_map(rs: Seq<ChatRoom>) -> Map<Seq<char>, Set<usize>> {
    Map::new(
        |n: Seq<char>| named(rs, n),
        |n: Seq<char>| rs[choose|i: int| 0 <= i < rs.len() && #[trigger] rs[i].name@ == n].sessions@.to_set(),
    )
}

/// The sessions of room `j`, with `id` added when `j` is `k`.
spec fn grown_at(rs: Seq<ChatRoom>, j: int, k: int, id: usize) -> Set<usize> {
    if j == k {
        rs[j].sessions@.to_set().insert(id)
    } else {
        rs[j].sessions@.to_set()
    }
}

/// Room `i` is found under its name.
proof fn lemma_rooms_map_at(rs: Seq<ChatRoom>, i: int)
    requires
        names_distinct(rs),
        0 <= i < rs.len(),
    ensures
        rooms_map(rs).contains_key(rs[i].name@),
        rooms_map(rs)[rs[i].name@] == rs[i].sessions@.to_set(),
{
    let n = rs[i].name@;
    assert(named(rs, n));
    let j = choose|j: int| 0 <= j < rs.len() && #[trigger] rs[j].name@ == n;
    assert(j == i);
}

/// Two room lists with the same names, room by room, give maps with the
/// same names, each with the sessions of the matching room.
proof fn lemma_rooms_map_same_names(a: Seq<ChatRoom>, b: Seq<ChatRoom>)
    requires
        names_distinct(a),
        a.len() == b.len(),
        forall|i: int| 0 <= i < a.len() ==> #[trigger] b[i].name@ == a[i].name@,
    ensures
        names_distinct(b),
        rooms_map(b).dom() == rooms_map(a).dom(),
        forall|i: int| 0 <= i < b.len() ==> #[trigger] rooms_map(b)[b[i].name@] == b[i].sessions@.to_set(),
{
    assert(names_distinct(b)) by {
        assert forall|i: int, j: int| 0 <= i < j < b.len() implies #[trigger] b[i].name@ != #[trigger] b[j].name@ by {
            assert(a[i].name@ != a[j].name@);
        }
    }
    assert(rooms_map(b).dom() =~= rooms_map(a).dom()) by {
        assert forall|n: Seq<char>| named(b, n) <==> named(a, n) by {
            if named(b, n) {
                let i = choose|i: int| 0 <= i < b.len() && #[trigger] b[i].name@ == n;
                assert(a[i].name@ == n);
            }
            if named(a, n) {
                let i = choose|i: int| 0 <= i < a.len() && #[trigger] a[i].name@ == n;
                assert(b[i].name@ == n);
            }
        }
    }
    assert forall|i: int| 0 <= i < b.len() implies #[trigger] rooms_map(b)[b[i].name@] == b[i].sessions@.to_set() by {
        lemma_rooms_map_at(b, i);
    }
}

/// Adding a room under a new name adds that name to the map.
proof fn lemma_rooms_map_push(rs: Seq<ChatRoom>, r: ChatRoom)
    requires
        names_distinct(rs),
        !named(rs, r.name@),
    ensures
        names_distinct(rs.push(r)),
        rooms_map(rs.push(r)) == rooms_map(rs).insert(r.name@, r.sessions@.to_set()),
{
    let b = rs.push(r);
    assert(names_distinct(b)) by {
        assert forall|i: int, j: int| 0 <= i < j < b.len() implies #[trigger] b[i].name@ != #[trigger] b[j].name@ by {
            if j == rs.len() {
                assert(b[i] == rs[i]);
            } else {
                assert(rs[i].name@ != rs[j].name@);
            }
        }
    }
    let m = rooms_map(rs).insert(r.name@, r.sessions@.to_set());
    assert(rooms_map(b).dom() =~= m.dom()) by {
        assert forall|n: Seq<char>| named(b, n) <==> (named(rs, n) || n == r.name@) by {
            if named(b, n) {
                let i = choose|i: int| 0 <= i < b.len() && #[trigger] b[i].name@ == n;
                if i < rs.len() {
                    assert(rs[i].name@ == n);
                }
            }
            if named(rs, n) {
                let i = choose|i: int| 0 <= i < rs.len() && #[trigger] rs[i].name@ == n;
                assert(b[i].name@ == n);
            }
            if n == r.name@ {
                assert(b[rs.len() as int].name@ == n);
            }
        }
    }
    assert forall|n: Seq<char>| #[trigger] rooms_map(b).contains_key(n) implies rooms_map(b)[n] == m[n] by {
        let i = choose|i: int| 0 <= i < b.len() && #[trigger] b[i].name@ == n;
        lemma_rooms_map_at(b, i);
        if i < rs.len() {
            assert(b[i] == rs[i]);
            lemma_rooms_map_at(rs, i);
        }
    }
    assert(rooms_map(b) =~= m);
}

/// The users' sessions that a room message reaches: every user whose
/// session text is not the sender's reads back as a number, and that
/// number is reached when it is connected.
pub open spec fn session_target(sessions: Set<usize>, sender: Seq<char>) -> spec_fn(User) -> Option<usize> {
    |u: User|
        if u.web_socket_session@ == sender {
            None
        } else {
            match parse_usize(u.web_socket_session@) {
                Some(n) => if sessions.contains(n) {
                    Some(n)
                } else {
                    None
                },
                None => None,
            }
        }
}

/// The user at position `k` stops a room message: the user is not the
/// sender and the user's session text does not read as a number.
pub open spec fn stops_at(members: Seq<User>, sender: Seq<char>, k: int) -> bool {
    members[k].web_socket_session@ != sender && parse_usize(members[k].web_socket_session@) is None
}

/// What a message to room `room` from session `ws_id` does: the sessions
/// it reaches, in the order of the room's memberships, and whether the
/// sending stops with a fault. It faults before sending anything when some
/// membership of the room names no stored user; it faults at the first
/// user (other than the sender) whose session text does not read as a
/// number, after reaching the users before that one.
pub open spec fn room_dispatch(sessions: Set<usize>, store: Store, room: Seq<char>, ws_id: usize) -> (Seq<usize>, bool) {
    let sender = decimal(ws_id as nat);
    let m = room_members(store.users@, store.room_to_users@, room);
    if !members_known(store.users@, store.room_to_users@, room) {
        (Seq::empty(), true)
    } else if exists|k: int| 0 <= k < m.len() && #[trigger] stops_at(m, sender, k) {
        let k = choose|k: int|
            0 <= k < m.len() && #[trigger] stops_at(m, sender, k) && forall|j: int| 0 <= j < k ==> !stops_at(m, sender, j);
        (m.take(k).filter_map(session_target(sessions, sender)), true)
    } else {
        (m.filter_map(session_target(sessions, sender)), false)
    }
}

/// A message to game `game` from session `ws_id` can be delivered: the
/// game's keys are distinct, the opponent can be looked up, and the
/// opponent's session text reads as a number (so the game is stored).
pub open spec fn game_deliverable(store: Store, game: Seq<char>, ws_id: usize) -> bool {
    &&& keys_distinct(store.tic_tac_toe_games@)
    &&& store.opponent_known(game, decimal(ws_id as nat))
    &&& parse_usize(store.opponent_session(game, decimal(ws_id as nat))) is Some
}

/// What a message to game `game` from session `ws_id` does: when it can be
/// delivered it reaches the opponent's session, then the sender's, each
/// when connected; otherwise it faults before sending anything.
pub open spec fn game_dispatch(sessions: Set<usize>, store: Store, game: Seq<char>, ws_id: usize) -> (Seq<usize>, bool) {
    if game_deliverable(store, game, ws_id) {
        (game_recipients(sessions, store, game, ws_id), false)
    } else {
        (Seq::empty(), true)
    }
}

/// The sessions that a message to game `game` from session `ws_id`
/// reaches: the opponent's, then the sender's, each when connected.
pub open spec fn game_recipients(sessions: Set<usize>, store: Store, game: Seq<char>, ws_id: usize) -> Seq<usize> {
    let opponent = parse_usize(store.opponent_session(game, decimal(ws_id as nat))).unwrap();
    (if sessions.contains(opponent) {
        seq![opponent]
    } else {
        Seq::empty()
    }) + (if sessions.contains(ws_id) {
        seq![ws_id]
    } else {
        Seq::empty()
    })
}

/// A room message stops at the first user whose session text does not read.
proof fn lemma_room_dispatch_stops(sessions: Set<usize>, store: Store, room: Seq<char>, ws_id: usize, i: int)
    requires
        members_known(store.users@, store.room_to_users@, room),
        0 <= i < room_members(store.users@, store.room_to_users@, room).len(),
        stops_at(room_members(store.users@, store.room_to_users@, room), decimal(ws_id as nat), i),
        forall|j: int| 0 <= j < i ==> !stops_at(room_members(store.users@, store.room_to_users@, room), decimal(ws_id as nat), j),
    ensures
        room_dispatch(sessions, store, room, ws_id) == (
            room_members(store.users@, store.room_to_users@, room).take(i).filter_map(session_target(sessions, decimal(ws_id as nat))),
            true,
        ),
{
    let m = room_members(store.users@, store.room_to_users@, room);
    let sender = decimal(ws_id as nat);
    assert(exists|k: int| 0 <= k < m.len() && #[trigger] stops_at(m, sender, k));
    let k = choose|k: int|
        0 <= k < m.len() && #[trigger] stops_at(m, sender, k) && forall|j: int| 0 <= j < k ==> !stops_at(m, sender, j);
    assert(0 <= i < m.len() && stops_at(m, sender, i) && forall|j: int| 0 <= j < i ==> !stops_at(m, sender, j));
    if k < i {
        assert(!stops_at(m, sender, k));
    }
    if k > i {
        assert(!stops_at(m, sender, i));
    }
    assert(k == i);
}

/// A user's session text is in its plain decimal form: where it reads as
/// a number, it is that number written without sign or leading zeros.
pub open spec fn plain_session(u: User) -> bool {
    match parse_usize(u.web_socket_session@) {
        Some(n) => u.web_socket_session@ == decimal(n as nat),
        None => true,
    }
}

/// A user whose session text is plain is not reached as the sender.
proof fn lemma_plain_user_is_not_sender(sessions: Set<usize>, u: User, ws_id: usize)
    requires
        plain_session(u),
    ensures
        session_target(sessions, decimal(ws_id as nat))(u) != Some(ws_id),
{
}

/// When some user stops a room message, a first one does.
proof fn lemma_first_stop(m: Seq<User>, sender: Seq<char>, k: int)
    requires
        0 <= k < m.len(),
        stops_at(m, sender, k),
    ensures
        exists|i: int|
            0 <= i < m.len() && #[trigger] stops_at(m, sender, i) && forall|j: int| 0 <= j < i ==> !stops_at(m, sender, j),
    decreases k,
{
    if exists|j: int| 0 <= j < k && stops_at(m, sender, j) {
        let j = choose|j: int| 0 <= j < k && stops_at(m, sender, j);
        lemma_first_stop(m, sender, j);
    } else {
        assert(forall|j: int| 0 <= j < k ==> !stops_at(m, sender, j));
    }
}

/// The users that a room message goes through: all the room's users, or
/// those before the one that stops it.
proof fn lemma_room_dispatch_from(sessions: Set<usize>, store: Store, room: Seq<char>, ws_id: usize) -> (k: int)
    requires
        members_known(store.users@, store.room_to_users@, room),
    ensures
        0 <= k <= room_members(store.users@, store.room_to_users@, room).len(),
        room_dispatch(sessions, store, room, ws_id).0 == room_members(store.users@, store.room_to_users@, room).take(
            k,
        ).filter_map(session_target(sessions, decimal(ws_id as nat))),
{
    let m = room_members(store.users@, store.room_to_users@, room);
    let sender = decimal(ws_id as nat);
    if exists|k: int| 0 <= k < m.len() && #[trigger] stops_at(m, sender, k) {
        let k0 = choose|k: int| 0 <= k < m.len() && #[trigger] stops_at(m, sender, k);
        lemma_first_stop(m, sender, k0);
        choose|k: int|
            0 <= k < m.len() && #[trigger] stops_at(m, sender, k) && forall|j: int| 0 <= j < k ==> !stops_at(m, sender, j)
    } else {
        assert(m.take(m.len() as int) =~= m);
        m.len() as int
    }
}

/// A message to a room of the lobby never comes back to the session that
/// sent it, when the session texts of the room's users are written in
/// plain decimal form.
pub proof fn lemma_room_message_skips_sender(sessions: Set<usize>, store: Store, room: Seq<char>, ws_id: usize)
    requires
        forall|u: User| room_members(store.users@, store.room_to_users@, room).contains(u) ==> #[trigger] plain_session(u),
    ensures
        !room_dispatch(sessions, store, room, ws_id).0.contains(ws_id),
{
    let m = room_members(store.users@, store.room_to_users@, room);
    let f = session_target(sessions, decimal(ws_id as nat));
    let to = room_dispatch(sessions, store, room, ws_id).0;
    if to.contains(ws_id) {
        let k = lemma_room_dispatch_from(sessions, store, room, ws_id);
        let s = m.take(k);
        s.lemma_filter_map_contains(f, ws_id);
        let u = choose|u: User| #[trigger] s.contains(u) && f(u) == Some(ws_id);
        let i = choose|i: int| 0 <= i < s.len() && s[i] == u;
        assert(m[i] == u);
        assert(m.contains(u));
        lemma_plain_user_is_not_sender(sessions, u, ws_id);
    }
}

/// Whether a message to game `game` from session `ws_id` can be delivered.
fn can_send_to_game(store: &Store, game: &String, ws_id: usize) -> (r: bool)
    requires
        keys_distinct(store.tic_tac_toe_games@),
    ensures
        r == game_deliverable(*store, game@, ws_id),
{
    let ws = usize_to_decimal(ws_id);
    if !store.can_find_opponent(game, &ws) {
        return false;
    }
    let opponent = store.get_oponent(game.clone(), ws);
    parse_decimal(opponent.as_str()).is_some()
}

/// A copy of a list of session numbers.
fn copy_sessions(v: &Vec<usize>) -> (r: Vec<usize>)
    ensures
        r@ == v@,
{
    let mut r: Vec<usize> = Vec::new();
    let mut i: usize = 0;
    while i < v.len()
        invariant
            i <= v@.len(),
            r@ == v@.take(i as int),
        decreases v@.len() - i,
    {
        r.push(v[i]);
        assert(v@.take(i + 1) =~= v@.take(i as int).push(v@[i as int]));
        i = i + 1;
    }
    assert(v@.take(v@.len() as int) =~= v@);
    r
}

/// The session numbers of `v` other than `id`.
fn without(v: &Vec<usize>, id: usize) -> (r: Vec<usize>)
    ensures
        r@.to_set() == v@.to_set().remove(id),
{
    let mut r: Vec<usize> = Vec::new();
    let mut i: usize = 0;
    while i < v.len()
        invariant
            i <= v@.len(),
            forall|x: usize| r@.contains(x) <==> (x != id && exists|j: int| 0 <= j < i && v@[j] == x),
        decreases v@.len() - i,
    {
        if v[i] != id {
            let ghost before = r@;
            r.push(v[i]);
            assert forall|x: usize| r@.contains(x) <==> (x != id && exists|j: int| 0 <= j < i + 1 && v@[j] == x) by {
                if r@.contains(x) {
                    let k = choose|k: int| 0 <= k < r@.len() && r@[k] == x;
                    if k < before.len() {
                        assert(before.contains(x));
                    }
                }
                if x != id && exists|j: int| 0 <= j < i + 1 && v@[j] == x {
                    let j = choose|j: int| 0 <= j < i + 1 && v@[j] == x;
                    if j < i {
                        assert(before.contains(x));
                        let k = choose|k: int| 0 <= k < before.len() && before[k] == x;
                        assert(r@[k] == x);
                    } else {
                        assert(r@[before.len() as int] == x);
                    }
                }
            }
        } else {
            assert forall|x: usize| r@.contains(x) <==> (x != id && exists|j: int| 0 <= j < i + 1 && v@[j] == x) by {
                if x != id && exists|j: int| 0 <= j < i + 1 && v@[j] == x {
                    let j = choose|j: int| 0 <= j < i + 1 && v@[j] == x;
                    assert(j < i);
                }
            }
        }
        i = i + 1;
    }
    assert(r@.to_set() =~= v@.to_set().remove(id)) by {
        assert forall|x: usize| r@.to_set().contains(x) <==> v@.to_set().remove(id).contains(x) by {
            if v@.contains(x) {
                let j = choose|j: int| 0 <= j < v@.len() && v@[j] == x;
                assert(exists|j: int| 0 <= j < v@.len() && v@[j] == x);
            }
        }
    }
    r
}

impl View for ChatServer {
    type V = ChatServerView;

    closed spec fn view(&self) -> ChatServerView {
        ChatServerView { sessions: self.sessions@, rooms: rooms_map(self.rooms@) }
    }
}

impl ChatServer {
    #[verifier::type_invariant]
    spec fn inv(&self) -> bool {
        names_distinct(self.rooms@)
    }

    /// A registry with no session and one empty room, "main".
    pub fn new() -> (r: ChatServer)
        ensures
            r@.sessions == Set::<usize>::empty(),
            r@.rooms == Map::<Seq<char>, Set<usize>>::empty().insert("main"@, Set::<usize>::empty()),
    {
        let mut rooms: Vec<ChatRoom> = Vec::new();
        let main = ChatRoom { name: String::from_str("main"), sessions: Vec::new() };
        proof {
            lemma_rooms_map_push(rooms@, main);
            assert(rooms_map(Seq::<ChatRoom>::empty()) =~= Map::<Seq<char>, Set<usize>>::empty());
            assert(main.sessions@.to_set() =~= Set::<usize>::empty());
        }
        rooms.push(main);
        ChatServer { sessions: HashSet::new(), rooms }
    }

    /// The position of the room named `name`.
    fn position_of_room(&self, name: &String) -> (r: Option<usize>)
        ensures
            match r {
                Some(i) => i < self.rooms@.len() && self.rooms@[i as int].name@ == name@,
                None => !named(self.rooms@, name@),
            },
    {
        let mut i: usize = 0;
        while i < self.rooms.len()
            invariant
                i <= self.rooms@.len(),
                forall|j: int| 0 <= j < i ==> #[trigger] self.rooms@[j].name@ != name@,
            decreases self.rooms@.len() - i,
        {
            if self.rooms[i].name == *name {
                return Some(i);
            }
            i = i + 1;
        }
        None
    }


    /// Connects session `id`.
    fn add_session(&mut self, id: usize)
        ensures
            final(self)@.sessions == old(self)@.sessions.insert(id),
            final(self)@.rooms == old(self)@.rooms,
    {
        proof {
            use_type_invariant(&*self);
        }
        broadcast use vstd::std_specs::hash::group_hash_axioms;
        let mut ss: HashSet<usize> = HashSet::new();
        std::mem::swap(&mut ss, &mut self.sessions);
        ss.insert(id);
        self.sessions = ss;
    }

    /// Disconnects session `id`.
    fn remove_session(&mut self, id: usize)
        ensures
            final(self)@.sessions == old(self)@.sessions.remove(id),
            final(self)@.rooms == old(self)@.rooms,
    {
        proof {
            use_type_invariant(&*self);
        }
        broadcast use vstd::std_specs::hash::group_hash_axioms;
        let mut ss: HashSet<usize> = HashSet::new();
        std::mem::swap(&mut ss, &mut self.sessions);
        ss.remove(&id);
        self.sessions = ss;
    }

    /// Puts session `id` in the room named `name`, making the room if there
    /// is none.
    fn add_to_room(&mut self, name: &String, id: usize)
        ensures
            final(self)@.sessions == old(self)@.sessions,
            final(self)@.rooms == old(self)@.rooms.insert(
                name@,
                (if old(self)@.rooms.contains_key(name@) {
                    old(self)@.rooms[name@]
                } else {
                    Set::<usize>::empty()
                }).insert(id),
            ),
    {
        proof {
            use_type_invariant(&*self);
        }
        match self.position_of_room(name) {
            Some(k) => {
                let ghost old_rooms = self.rooms@;
                let mut rebuilt: Vec<ChatRoom> = Vec::new();
                let mut i: usize = 0;
                while i < self.rooms.len()
                    invariant
                        i <= self.rooms@.len(),
                        k < self.rooms@.len(),
                        self.rooms@ == old_rooms,
                        rebuilt@.len() == i,
                        forall|j: int| 0 <= j < i ==> #[trigger] rebuilt@[j].name@ == old_rooms[j].name@
                            && rebuilt@[j].sessions@.to_set() == grown_at(old_rooms, j, k as int, id),
                    decreases self.rooms@.len() - i,
                {
                    let mut ss = copy_sessions(&self.rooms[i].sessions);
                    if i == k {
                        ss.push(id);
                        proof {
                            old_rooms[i as int].sessions@.lemma_push_to_set_commute(id);
                        }
                    }
                    let ghost before = rebuilt@;
                    rebuilt.push(ChatRoom { name: self.rooms[i].name.clone(), sessions: ss });
                    assert(rebuilt@[i as int].sessions@ == ss@);
                    assert(rebuilt@[i as int].name@ == old_rooms[i as int].name@);
                    assert forall|j: int| 0 <= j < i + 1 implies #[trigger] rebuilt@[j].name@ == old_rooms[j].name@
                        && rebuilt@[j].sessions@.to_set() == grown_at(old_rooms, j, k as int, id) by {
                        if j < i {
                            assert(rebuilt@[j] == before[j]);
                            assert(before[j].name@ == old_rooms[j].name@);
                        }
                    }
                    i = i + 1;
                }
                proof {
                    lemma_rooms_map_same_names(old_rooms, rebuilt@);
                    let expected = rooms_map(old_rooms).insert(name@, rooms_map(old_rooms)[name@].insert(id));
                    lemma_rooms_map_at(old_rooms, k as int);
                    assert forall|n: Seq<char>| #[trigger] rooms_map(rebuilt@).contains_key(n) implies
                        rooms_map(rebuilt@)[n] == expected[n] by {
                        let j = choose|j: int| 0 <= j < rebuilt@.len() && #[trigger] rebuilt@[j].name@ == n;
                        lemma_rooms_map_at(old_rooms, j);
                    }
                    assert(rooms_map(rebuilt@) =~= expected);
                }
                self.rooms = rebuilt;
            },
            None => {
                let mut ss: Vec<usize> = Vec::new();
                ss.push(id);
                let r = ChatRoom { name: name.clone(), sessions: ss };
                proof {
                    lemma_rooms_map_push(self.rooms@, r);
                    assert(r.sessions@.to_set() =~= Set::<usize>::empty().insert(id)) by {
                        assert(r.sessions@ =~= seq![id]);
                        assert forall|x: usize| r.sessions@.contains(x) <==> x == id by {
                            if x == id {
                                assert(r.sessions@[0] == x);
                            }
                        }
                    }
                }
                let mut rs: Vec<ChatRoom> = Vec::new();
                std::mem::swap(&mut rs, &mut self.rooms);
                rs.push(r);
                self.rooms = rs;
            },
        }
    }

    /// Takes session `id` out of every room.
    fn remove_from_rooms(&mut self, id: usize)
        ensures
            final(self)@.sessions == old(self)@.sessions,
            final(self)@.rooms == without_session(old(self)@.rooms, id),
    {
        proof {
            use_type_invariant(&*self);
        }
        let ghost old_rooms = self.rooms@;
        let mut rebuilt: Vec<ChatRoom> = Vec::new();
        let mut i: usize = 0;
        while i < self.rooms.len()
            invariant
                i <= self.rooms@.len(),
                self.rooms@ == old_rooms,
                rebuilt@.len() == i,
                forall|j: int| 0 <= j < i ==> #[trigger] rebuilt@[j].name@ == old_rooms[j].name@
                    && rebuilt@[j].sessions@.to_set() == old_rooms[j].sessions@.to_set().remove(id),
            decreases self.rooms@.len() - i,
        {
            let ss = without(&self.rooms[i].sessions, id);
            let ghost before = rebuilt@;
            rebuilt.push(ChatRoom { name: self.rooms[i].name.clone(), sessions: ss });
            assert forall|j: int| 0 <= j < i + 1 implies #[trigger] rebuilt@[j].name@ == old_rooms[j].name@
                && rebuilt@[j].sessions@.to_set() == old_rooms[j].sessions@.to_set().remove(id) by {
                if j < i {
                    assert(rebuilt@[j] == before[j]);
                }
            }
            i = i + 1;
        }
        proof {
            lemma_rooms_map_same_names(old_rooms, rebuilt@);
            let expected = without_session(rooms_map(old_rooms), id);
            assert forall|n: Seq<char>| #[trigger] rooms_map(rebuilt@).contains_key(n) implies
                rooms_map(rebuilt@)[n] == expected[n] by {
                let j = choose|j: int| 0 <= j < rebuilt@.len() && #[trigger] rebuilt@[j].name@ == n;
                lemma_rooms_map_at(old_rooms, j);
            }
            assert(rooms_map(rebuilt@) =~= expected);
        }
        self.rooms = rebuilt;
    }

    /// The sessions a message to session `self_id` in room `room` reaches:
    /// that session, when it is connected and in the room.
    pub fn send_message_self(&self, room: &str, self_id: usize) -> (r: Vec<usize>)
        ensures
            r@ == if self@.rooms.contains_key(room@) && self@.rooms[room@].contains(self_id)
                && self@.sessions.contains(self_id) {
                seq![self_id]
            } else {
                Seq::<usize>::empty()
            },
    {
        proof {
            use_type_invariant(self);
        }
        let name = String::from_str(room);
        let mut out: Vec<usize> = Vec::new();
        match self.position_of_room(&name) {
            None => {},
            Some(k) => {
                proof {
                    lemma_rooms_map_at(self.rooms@, k as int);
                }
                let members = &self.rooms[k].sessions;
                let mut i: usize = 0;
                let mut in_room = false;
                while i < members.len()
                    invariant
                        i <= members@.len(),
                        in_room == exists|j: int| 0 <= j < i && members@[j] == self_id,
                    decreases members@.len() - i,
                {
                    if members[i] == self_id {
                        in_room = true;
                    }
                    i = i + 1;
                }
                if in_room && self.is_connected(self_id) {
                    out.push(self_id);
                }
            },
        }
        proof {
            if out@.len() == 0 {
                assert(out@ =~= Seq::<usize>::empty());
            } else {
                assert(out@ =~= seq![self_id]);
            }
        }
        out
    }

    /// Sends to room `room` of the lobby on behalf of session `ws_id`.
    pub fn send_message_to_room(&self, store: &Store, room: &str, ws_id: usize) -> (r: Dispatch)
        ensures
            (r.to@, r.fault) == room_dispatch(self@.sessions, *store, room@, ws_id),
    {
        let room_id = String::from_str(room);
        if !store.can_list_room(&room_id) {
            return Dispatch { to: Vec::new(), fault: true };
        }
        let members = store.get_users_in_room(room_id);
        let sender = usize_to_decimal(ws_id);
        let ghost m = room_members(store.users@, store.room_to_users@, room@);
        let ghost target = session_target(self@.sessions, decimal(ws_id as nat));
        let mut out: Vec<usize> = Vec::new();
        let mut i: usize = 0;
        while i < members.len()
            invariant
                i <= members@.len(),
                members@ == room_members(store.users@, store.room_to_users@, room@),
                members_known(store.users@, store.room_to_users@, room@),
                sender@ == decimal(ws_id as nat),
                forall|j: int| 0 <= j < i ==> !#[trigger] stops_at(members@, sender@, j),
                out@ == members@.take(i as int).filter_map(session_target(self@.sessions, sender@)),
            decreases members@.len() - i,
        {
            proof {
                members@.lemma_filter_map_take_succ(session_target(self@.sessions, sender@), i as int);
            }
            let u = &members[i];
            if u.web_socket_session != sender {
                match parse_decimal(u.web_socket_session.as_str()) {
                    None => {
                        proof {
                            lemma_room_dispatch_stops(self@.sessions, *store, room@, ws_id, i as int);
                        }
                        return Dispatch { to: out, fault: true };
                    },
                    Some(n) => {
                        if self.is_connected(n) {
                            out.push(n);
                        }
                    },
                }
            }
            i = i + 1;
        }
        assert(members@.take(members@.len() as int) =~= members@);
        Dispatch { to: out, fault: false }
    }

    /// Sends to game `game` on behalf of session `ws_id`.
    pub fn send_message_to_game(&self, store: &Store, game: &str, ws_id: usize) -> (r: Dispatch)
        requires
            keys_distinct(store.tic_tac_toe_games@),
        ensures
            (r.to@, r.fault) == game_dispatch(self@.sessions, *store, game@, ws_id),
    {
        let game_id = String::from_str(game);
        if !can_send_to_game(store, &game_id, ws_id) {
            return Dispatch { to: Vec::new(), fault: true };
        }
        let opponents_wsc = store.get_oponent(game_id, usize_to_decimal(ws_id));
        let opponent = parse_decimal(opponents_wsc.as_str()).unwrap();
        let mut out: Vec<usize> = Vec::new();
        if self.is_connected(opponent) {
            out.push(opponent);
        }
        if self.is_connected(ws_id) {
            out.push(ws_id);
        }
        proof {
            let a = if self@.sessions.contains(opponent) { seq![opponent] } else { Seq::<usize>::empty() };
            let b = if self@.sessions.contains(ws_id) { seq![ws_id] } else { Seq::<usize>::empty() };
            assert(out@ =~= a + b);
        }
        Dispatch { to: out, fault: false }
    }


    /// A new session: it gets a random number, is connected and put in the
    /// room "main", and is told its number (the sessions to tell are
    /// answered with the number).
    pub fn handle_connect(&mut self) -> (r: (usize, Vec<usize>))
        ensures
            final(self)@.sessions == old(self)@.sessions.insert(r.0),
            final(self)@.rooms == old(self)@.rooms.insert(
                "main"@,
                (if old(self)@.rooms.contains_key("main"@) {
                    old(self)@.rooms["main"@]
                } else {
                    Set::<usize>::empty()
                }).insert(r.0),
            ),
            r.1@ == seq![r.0],
            rooms_hold_connected(old(self)@) ==> rooms_hold_connected(final(self)@),
    {
        let ghost before = self@;
        let id = random_session_id();
        self.add_session(id);
        let main = String::from_str("main");
        self.add_to_room(&main, id);
        proof {
            if rooms_hold_connected(before) {
                lemma_connect_keeps_rooms_connected(before, self@, id);
            }
        }
        let notify = self.send_message_self("main", id);
        (id, notify)
    }

    /// The names of the rooms, each once, in no particular order.
    pub fn handle_list_rooms(&self, msg: ListRooms) -> (r: Vec<String>)
        ensures
            texts(r@).no_duplicates(),
            texts(r@).to_set() == self@.rooms.dom(),
    {
        proof {
            use_type_invariant(self);
        }
        let mut out: Vec<String> = Vec::new();
        let mut i: usize = 0;
        while i < self.rooms.len()
            invariant
                i <= self.rooms@.len(),
                names_distinct(self.rooms@),
                out@.len() == i,
                forall|j: int| 0 <= j < i ==> #[trigger] out@[j]@ == self.rooms@[j].name@,
            decreases self.rooms@.len() - i,
        {
            out.push(self.rooms[i].name.clone());
            i = i + 1;
        }
        proof {
            let names = texts(out@);
            assert forall|a: int, b: int| 0 <= a < names.len() && 0 <= b < names.len() && a != b implies names[a] != names[b] by {
                if a < b {
                    assert(self.rooms@[a].name@ != self.rooms@[b].name@);
                } else {
                    assert(self.rooms@[b].name@ != self.rooms@[a].name@);
                }
            }
            assert forall|n: Seq<char>| names.to_set().contains(n) <==> self@.rooms.dom().contains(n) by {
                if names.to_set().contains(n) {
                    let j = choose|j: int| 0 <= j < names.len() && names[j] == n;
                    assert(self.rooms@[j].name@ == n);
                }
                if self@.rooms.dom().contains(n) {
                    let j = choose|j: int| 0 <= j < self.rooms@.len() && #[trigger] self.rooms@[j].name@ == n;
                    assert(names[j] == n);
                }
            }
            assert(names.to_set() =~= self@.rooms.dom());
        }
        out
    }

    /// A session sends a message: to the room of the lobby named in it, then
    /// to the game named in it. A fault in the room stops before the game.
    pub fn handle_client_message(&self, store: &Store, msg: &ClientMessage) -> (r: Dispatch)
        requires
            keys_distinct(store.tic_tac_toe_games@),
        ensures
            ({
                let rd = match msg.room {
                    Some(room) => room_dispatch(self@.sessions, *store, room@, msg.id),
                    None => (Seq::<usize>::empty(), false),
                };
                let gd = match msg.game {
                    Some(game) => game_dispatch(self@.sessions, *store, game@, msg.id),
                    None => (Seq::<usize>::empty(), false),
                };
                if rd.1 {
                    (r.to@, r.fault) == rd
                } else {
                    (r.to@, r.fault) == (rd.0 + gd.0, gd.1)
                }
            }),
    {
        let mut to: Vec<usize> = Vec::new();
        match &msg.room {
            Some(room) => {
                let d = self.send_message_to_room(store, room.as_str(), msg.id);
                if d.fault {
                    return d;
                }
                to = d.to;
            },
            None => {},
        }
        match &msg.game {
            Some(game) => {
                let d = self.send_message_to_game(store, game.as_str(), msg.id);
                let ghost before = to@;
                let mut more = d.to;
                to.append(&mut more);
                assert(to@ =~= before + d.to@);
                Dispatch { to, fault: d.fault }
            },
            None => {
                assert(to@ =~= to@ + Seq::<usize>::empty());
                Dispatch { to, fault: false }
            },
        }
    }

    /// The names of the rooms that hold session `id`.
    fn rooms_holding(&self, id: usize) -> (r: Vec<String>)
        ensures
            texts(r@).no_duplicates(),
            forall|n: Seq<char>| texts(r@).contains(n)
                <==> (self@.rooms.contains_key(n) && self@.rooms[n].contains(id)),
    {
        proof {
            use_type_invariant(self);
        }
        let mut out: Vec<String> = Vec::new();
        let ghost picked: Seq<int> = Seq::empty();
        let mut i: usize = 0;
        while i < self.rooms.len()
            invariant
                i <= self.rooms@.len(),
                names_distinct(self.rooms@),
                out@.len() == picked.len(),
                forall|a: int| 0 <= a < picked.len() ==> 0 <= #[trigger] picked[a] < i
                    && out@[a]@ == self.rooms@[picked[a]].name@,
                forall|a: int, b: int| 0 <= a < b < picked.len() ==> #[trigger] picked[a] < #[trigger] picked[b],
                forall|j: int| 0 <= j < i ==> (self.rooms@[j].sessions@.contains(id)
                    <==> exists|a: int| 0 <= a < picked.len() && #[trigger] picked[a] == j),
            decreases self.rooms@.len() - i,
        {
            let members = &self.rooms[i].sessions;
            let mut k: usize = 0;
            let mut found = false;
            while k < members.len()
                invariant
                    k <= members@.len(),
                    found == exists|j: int| 0 <= j < k && members@[j] == id,
                decreases members@.len() - k,
            {
                if members[k] == id {
                    found = true;
                }
                k = k + 1;
            }
            if found {
                out.push(self.rooms[i].name.clone());
                proof {
                    let old_picked = picked;
                    picked = picked.push(i as int);
                    assert forall|j: int| 0 <= j < i + 1 implies (self.rooms@[j].sessions@.contains(id)
                        <==> exists|a: int| 0 <= a < picked.len() && #[trigger] picked[a] == j) by {
                        if j < i {
                            if exists|a: int| 0 <= a < old_picked.len() && #[trigger] old_picked[a] == j {
                                let a = choose|a: int| 0 <= a < old_picked.len() && #[trigger] old_picked[a] == j;
                                assert(picked[a] == j);
                            }
                            if exists|a: int| 0 <= a < picked.len() && #[trigger] picked[a] == j {
                                let a = choose|a: int| 0 <= a < picked.len() && #[trigger] picked[a] == j;
                                assert(a < old_picked.len());
                                assert(old_picked[a] == j);
                            }
                        } else {
                            assert(picked[old_picked.len() as int] == j);
                        }
                    }
                }
            } else {
                proof {
                    assert forall|j: int| 0 <= j < i + 1 implies (self.rooms@[j].sessions@.contains(id)
                        <==> exists|a: int| 0 <= a < picked.len() && #[trigger] picked[a] == j) by {
                        if j == i {
                            if exists|a: int| 0 <= a < picked.len() && #[trigger] picked[a] == j {
                                let a = choose|a: int| 0 <= a < picked.len() && #[trigger] picked[a] == j;
                                assert(picked[a] < i);
                            }
                        }
                    }
                }
            }
            i = i + 1;
        }
        proof {
            let names = texts(out@);
            assert forall|a: int, b: int| 0 <= a < names.len() && 0 <= b < names.len() && a != b implies names[a] != names[b] by {
                if a < b {
                    assert(picked[a] < picked[b]);
                    assert(self.rooms@[picked[a]].name@ != self.rooms@[picked[b]].name@);
                } else {
                    assert(picked[b] < picked[a]);
                    assert(self.rooms@[picked[b]].name@ != self.rooms@[picked[a]].name@);
                }
            }
            assert forall|n: Seq<char>| names.contains(n) <==> (self@.rooms.contains_key(n) && self@.rooms[n].contains(id)) by {
                if names.contains(n) {
                    let a = choose|a: int| 0 <= a < names.len() && names[a] == n;
                    let j = picked[a];
                    lemma_rooms_map_at(self.rooms@, j);
                    assert(self.rooms@[j].sessions@.contains(id));
                    assert(self.rooms@[j].sessions@.to_set().contains(id));
                }
                if self@.rooms.contains_key(n) && self@.rooms[n].contains(id) {
                    let j = choose|j: int| 0 <= j < self.rooms@.len() && #[trigger] self.rooms@[j].name@ == n;
                    lemma_rooms_map_at(self.rooms@, j);
                    assert(self.rooms@[j].sessions@.contains(id));
                    let a = choose|a: int| 0 <= a < picked.len() && #[trigger] picked[a] == j;
                    assert(names[a] == n);
                }
            }
        }
        out
    }

    /// Session `msg.id` moves to the room `msg.name`: it leaves every room
    /// it is in, each such room is told, and then it enters the new room
    /// (made if there is none). A fault while telling a room stops there,
    /// before the session enters the new room.
    pub fn handle_join(&mut self, store: &Store, msg: Join) -> (r: JoinOutcome)
        ensures
            final(self)@.sessions == old(self)@.sessions,
            notice_rooms(r.notices@).no_duplicates(),
            forall|k: int| 0 <= k < r.notices@.len() ==> old(self)@.rooms.contains_key(#[trigger] r.notices@[k].room@)
                && old(self)@.rooms[r.notices@[k].room@].contains(msg.id),
            forall|k: int| 0 <= k < r.notices@.len() ==> (#[trigger] r.notices@[k].to@, r.fault && k == r.notices@.len() - 1)
                == room_dispatch(old(self)@.sessions, *store, r.notices@[k].room@, 0),
            r.fault ==> r.notices@.len() > 0,
            r.fault ==> final(self)@.rooms == without_session(old(self)@.rooms, msg.id),
            !r.fault ==> forall|n: Seq<char>| old(self)@.rooms.contains_key(n) && old(self)@.rooms[n].contains(msg.id)
                ==> notice_rooms(r.notices@).contains(n),
            !r.fault ==> ({
                let removed = without_session(old(self)@.rooms, msg.id);
                final(self)@.rooms == removed.insert(
                    msg.name@,
                    (if removed.contains_key(msg.name@) {
                        removed[msg.name@]
                    } else {
                        Set::<usize>::empty()
                    }).insert(msg.id),
                )
            }),
    {
        let Join { id, name } = msg;
        let left = self.rooms_holding(id);
        self.remove_from_rooms(id);
        let mut notices: Vec<Notice> = Vec::new();
        let mut i: usize = 0;
        while i < left.len()
            invariant
                i <= left@.len(),
                id == msg.id,
                notices@.len() == i,
                self@.sessions == old(self)@.sessions,
                self@.rooms == without_session(old(self)@.rooms, id),
                texts(left@).no_duplicates(),
                forall|n: Seq<char>| texts(left@).contains(n)
                    <==> (old(self)@.rooms.contains_key(n) && old(self)@.rooms[n].contains(id)),
                forall|k: int| 0 <= k < i ==> #[trigger] notices@[k].room@ == left@[k]@
                    && (notices@[k].to@, false) == room_dispatch(old(self)@.sessions, *store, left@[k]@, 0),
            decreases left@.len() - i,
        {
            let d = self.send_message_to_room(store, left[i].as_str(), 0);
            let ghost before = notices@;
            notices.push(Notice { room: left[i].clone(), to: d.to });
            if d.fault {
                proof {
                    let names = notice_rooms(notices@);
                    let lnames = texts(left@);
                    assert forall|a: int, b: int| 0 <= a < names.len() && 0 <= b < names.len() && a != b implies names[a] != names[b] by {
                        assert(names[a] == lnames[a]);
                        assert(names[b] == lnames[b]);
                    }
                    assert forall|k: int| 0 <= k < notices@.len() implies old(self)@.rooms.contains_key(#[trigger] notices@[k].room@)
                        && old(self)@.rooms[notices@[k].room@].contains(id) by {
                        assert(lnames.contains(lnames[k]));
                    }
                }
                return JoinOutcome { notices, fault: true };
            }
            assert forall|k: int| 0 <= k < i + 1 implies #[trigger] notices@[k].room@ == left@[k]@
                && (notices@[k].to@, false) == room_dispatch(old(self)@.sessions, *store, left@[k]@, 0) by {
                if k < i {
                    assert(notices@[k] == before[k]);
                }
            }
            i = i + 1;
        }
        self.add_to_room(&name, id);
        proof {
            let names = notice_rooms(notices@);
            let lnames = texts(left@);
            assert(names =~= lnames);
            assert forall|k: int| 0 <= k < notices@.len() implies old(self)@.rooms.contains_key(#[trigger] notices@[k].room@)
                && old(self)@.rooms[notices@[k].room@].contains(id) by {
                assert(lnames.contains(lnames[k]));
            }
        }
        JoinOutcome { notices, fault: false }
    }

    /// A session has gone: it is disconnected and taken out of every room
    /// (when it was connected). Then, if its user is in a room of the lobby,
    /// the user leaves that room and the room's other users are told. A
    /// fault arises when the session's user is unknown, or the room cannot
    /// be looked up, or while telling the room.
    pub fn handle_disconnect(&mut self, store: &mut Store, msg: Disconnect) -> (r: DisconnectOutcome)
        ensures
            final(self)@.sessions == old(self)@.sessions.remove(msg.id),
            final(self)@.rooms == if old(self)@.sessions.contains(msg.id) {
                without_session(old(self)@.rooms, msg.id)
            } else {
                old(self)@.rooms
            },
            rooms_hold_connected(old(self)@) ==> rooms_hold_connected(final(self)@)
                && final(self)@.rooms == without_session(old(self)@.rooms, msg.id),
            keeps_moves(old(store).tic_tac_toe_moves@, final(store).tic_tac_toe_moves@),
            ({
                let ws = decimal(msg.id as nat);
                if !old(store).current_room_known(ws) {
                    &&& r.departure is None
                    &&& r.fault
                    &&& final(store).same_rows(*old(store))
                } else {
                    match old(store).current_room_of(ws) {
                        None => {
                            &&& r.departure is None
                            &&& !r.fault
                            &&& final(store).same_rows(*old(store))
                        },
                        Some(room) => {
                            let user = user_by_ws(old(store).users@, ws).unwrap();
                            &&& r.departure matches Some(d) && {
                                &&& d.room == room
                                &&& d.user == user
                                &&& (d.to@, r.fault) == room_dispatch(final(self)@.sessions, *final(store), room.id@, 0)
                            }
                            &&& final(store).room_to_users@ == old(store).room_to_users@.filter(
                                not_membership(room.id@, user.id@),
                            )
                            &&& final(store).agrees_except(*old(store), Table::RoomToUsers)
                        },
                    }
                }
            }),
            old(store).wf() ==> final(store).wf(),
    {
        let id = msg.id;
        let ghost before = self@;
        if self.is_connected(id) {
            self.remove_session(id);
            self.remove_from_rooms(id);
        } else {
            assert(self@.sessions.remove(id) =~= self@.sessions);
        }
        proof {
            if rooms_hold_connected(before) {
                lemma_disconnect_keeps_rooms_connected(before, self@, id);
            }
        }
        let ws = usize_to_decimal(id);
        if !store.can_find_current_room(&ws) {
            return DisconnectOutcome { departure: None, fault: true };
        }
        match store.get_current_room(ws.clone()) {
            None => DisconnectOutcome { departure: None, fault: false },
            Some(current_room) => {
                let current_user = store.find_user_by_ws(ws);
                store.leave_room(current_room.id.as_str(), current_user.id.as_str());
                let d = self.send_message_to_room(store, current_room.id.as_str(), 0);
                DisconnectOutcome {
                    departure: Some(Departure { room: current_room, user: current_user, to: d.to }),
                    fault: d.fault,
                }
            },
        }
    }

    /// Whether session `id` is connected.
    fn is_connected(&self, id: usize) -> (r: bool)
        ensures
            r == self@.sessions.contains(id),
    {
        broadcast use vstd::std_specs::hash::group_hash_axioms;
        self.sessions.contains(&id)
    }
}

} // verus!
