use game_lobby::db::Store;
use game_lobby::models::{RoomToUser, TicTacToeGame, User};
use game_lobby::server::{ChatServer, ClientMessage, Disconnect, Join, ListRooms};

fn user(id: &str, name: &str, ws: &str) -> User {
    User {
        id: id.to_string(),
        username: name.to_string(),
        phone: "1".to_string(),
        web_socket_session: ws.to_string(),
        created_at: "t".to_string(),
    }
}

fn member(id: &str, room: &str, user: &str) -> RoomToUser {
    RoomToUser { id: id.to_string(), room: room.to_string(), user: user.to_string() }
}

fn rooms(server: &ChatServer) -> Vec<String> {
    let mut names = server.handle_list_rooms(ListRooms);
    names.sort();
    names
}

#[test]
fn a_new_server_has_the_main_room() {
    let server = ChatServer::new();
    assert_eq!(rooms(&server), vec!["main".to_string()]);
}

#[test]
fn connecting_joins_main_and_tells_the_session() {
    let mut server = ChatServer::new();
    let (id, notify) = server.handle_connect();
    assert_eq!(notify, vec![id]);
    assert_eq!(server.send_message_self("main", id), vec![id]);
    assert!(server.send_message_self("elsewhere", id).is_empty());
}

#[test]
fn joining_moves_the_session_between_rooms() {
    let mut server = ChatServer::new();
    let store = Store::new();
    let (id, _) = server.handle_connect();
    let out = server.handle_join(&store, Join { id, name: "lobby".to_string() });
    assert!(!out.fault);
    assert_eq!(out.notices.len(), 1);
    assert_eq!(out.notices[0].room, "main");
    assert!(out.notices[0].to.is_empty());
    assert_eq!(rooms(&server), vec!["lobby".to_string(), "main".to_string()]);
    assert_eq!(server.send_message_self("lobby", id), vec![id]);
    assert!(server.send_message_self("main", id).is_empty());
}

#[test]
fn room_messages_reach_connected_users_but_the_sender() {
    let mut server = ChatServer::new();
    let (a, _) = server.handle_connect();
    let (b, _) = server.handle_connect();
    let mut store = Store::new();
    store.users = vec![user("u1", "ann", &a.to_string()), user("u2", "bob", &b.to_string()), user("u3", "cid", "0")];
    store.room_to_users = vec![member("m1", "r1", "u1"), member("m2", "r1", "u2"), member("m3", "r1", "u3")];
    let d = server.send_message_to_room(&store, "r1", a);
    assert!(!d.fault);
    assert_eq!(d.to, vec![b]);
    // From session 0 (the server itself): everyone connected, the user with session "0" excepted.
    let d0 = server.send_message_to_room(&store, "r1", 0);
    assert_eq!(d0.to, vec![a, b]);
    let both = server.handle_client_message(&store, &ClientMessage { id: b, msg: "m".to_string(), room: Some("r1".to_string()), game: None });
    assert_eq!(both.to, vec![a]);
}

#[test]
fn an_unreadable_session_text_stops_a_room_message() {
    let mut server = ChatServer::new();
    let (a, _) = server.handle_connect();
    let mut store = Store::new();
    store.users = vec![user("u1", "ann", &a.to_string()), user("u2", "bob", "not-a-number"), user("u3", "cid", &a.to_string())];
    store.room_to_users = vec![member("m1", "r1", "u1"), member("m2", "r1", "u2"), member("m3", "r1", "u3")];
    let d = server.send_message_to_room(&store, "r1", 0);
    assert!(d.fault);
    assert_eq!(d.to, vec![a]);
    store.room_to_users.push(member("m4", "r1", "ghost"));
    let d2 = server.send_message_to_room(&store, "r1", 0);
    assert!(d2.fault);
    assert!(d2.to.is_empty());
}

#[test]
fn game_messages_reach_the_opponent_and_the_sender() {
    let mut server = ChatServer::new();
    let (a, _) = server.handle_connect();
    let (b, _) = server.handle_connect();
    let mut store = Store::new();
    store.users = vec![user("u1", "ann", &a.to_string()), user("u2", "bob", &b.to_string())];
    store.tic_tac_toe_games = vec![TicTacToeGame {
        id: "g1".to_string(),
        player_1: "u1".to_string(),
        player_2: Some("u2".to_string()),
        turn: Some("u1".to_string()),
        game_status: "Active".to_string(),
        created_at: "t".to_string(),
    }];
    let d = server.send_message_to_game(&store, "g1", a);
    assert!(!d.fault);
    assert_eq!(d.to, vec![b, a]);
    let missing = server.send_message_to_game(&store, "g9", a);
    assert!(missing.fault);
    let both = server.handle_client_message(&store, &ClientMessage { id: b, msg: "m".to_string(), room: None, game: Some("g1".to_string()) });
    assert_eq!(both.to, vec![a, b]);
}

#[test]
fn disconnecting_leaves_the_room_and_tells_it() {
    let mut server = ChatServer::new();
    let (a, _) = server.handle_connect();
    let (b, _) = server.handle_connect();
    let mut store = Store::new();
    store.users = vec![user("u1", "ann", &a.to_string()), user("u2", "bob", &b.to_string())];
    store.rooms = vec![game_lobby::models::Room { id: "r1".to_string(), name: "Chat".to_string(), created_at: "t".to_string(), game: None }];
    store.room_to_users = vec![member("m1", "r1", "u1"), member("m2", "r1", "u2")];
    let out = server.handle_disconnect(&mut store, Disconnect { id: a });
    assert!(!out.fault);
    let dep = out.departure.unwrap();
    assert_eq!(dep.room.id, "r1");
    assert_eq!(dep.user.id, "u1");
    assert_eq!(dep.to, vec![b]);
    assert_eq!(store.room_to_users.len(), 1);
    assert!(server.send_message_self("main", a).is_empty());
    assert_eq!(server.send_message_self("main", b), vec![b]);
}

#[test]
fn disconnecting_an_unknown_session_faults() {
    let mut server = ChatServer::new();
    let mut store = Store::new();
    let out = server.handle_disconnect(&mut store, Disconnect { id: 12 });
    assert!(out.fault);
    assert!(out.departure.is_none());
}

#[test]
fn a_gone_session_is_in_no_room() {
    let mut server = ChatServer::new();
    let mut store = Store::new();
    let (a, _) = server.handle_connect();
    let (b, _) = server.handle_connect();
    server.handle_join(&store, Join { id: b, name: "lobby".to_string() });
    let out = server.handle_disconnect(&mut store, Disconnect { id: b });
    assert!(out.fault);
    assert!(server.send_message_self("lobby", b).is_empty());
    assert!(server.send_message_self("main", b).is_empty());
    assert_eq!(server.send_message_self("main", a), vec![a]);
    assert_eq!(rooms(&server), vec!["lobby".to_string(), "main".to_string()]);
}
