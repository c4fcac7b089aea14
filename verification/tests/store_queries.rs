use game_lobby::db::{DbError, Store};
use game_lobby::models::{
    Message, NewTicTacToeMove, Room, RoomToUser, TicTacToeGame, TicTacToeMove, User,
};

fn user(id: &str, name: &str, phone: &str, ws: &str) -> User {
    User {
        id: id.to_string(),
        username: name.to_string(),
        phone: phone.to_string(),
        web_socket_session: ws.to_string(),
        created_at: "2024-01-01T00:00:00+00:00".to_string(),
    }
}

fn room(id: &str, name: &str) -> Room {
    Room { id: id.to_string(), name: name.to_string(), created_at: "t".to_string(), game: None }
}

fn member(id: &str, room: &str, user: &str) -> RoomToUser {
    RoomToUser { id: id.to_string(), room: room.to_string(), user: user.to_string() }
}

fn message(id: &str, room: &str, user: &str, content: &str) -> Message {
    Message {
        id: id.to_string(),
        room_id: room.to_string(),
        user_id: user.to_string(),
        content: content.to_string(),
        created_at: "t".to_string(),
    }
}

fn game(id: &str, p1: &str, p2: Option<&str>, turn: Option<&str>) -> TicTacToeGame {
    TicTacToeGame {
        id: id.to_string(),
        player_1: p1.to_string(),
        player_2: p2.map(|s| s.to_string()),
        turn: turn.map(|s| s.to_string()),
        game_status: "Active".to_string(),
        created_at: "t".to_string(),
    }
}

fn played(id: &str, game: &str, player: &str, row: i32, col: i32) -> TicTacToeMove {
    TicTacToeMove {
        id: id.to_string(),
        player_id: player.to_string(),
        game_id: game.to_string(),
        row_number: row,
        column_number: col,
        created_at: "t".to_string(),
    }
}

fn new_move(game: &str, player: &str, row: i32, col: i32) -> NewTicTacToeMove {
    NewTicTacToeMove { player_id: player.to_string(), game_id: game.to_string(), row_number: row, column_number: col }
}

fn is_uuid_v4_text(s: &str) -> bool {
    let b: Vec<char> = s.chars().collect();
    b.len() == 36
        && b.iter().enumerate().all(|(i, c)| {
            if i == 8 || i == 13 || i == 18 || i == 23 {
                *c == '-'
            } else {
                c.is_ascii_digit() || ('a'..='f').contains(c)
            }
        })
        && b[14] == '4'
        && "89ab".contains(b[19])
}

fn lobby() -> Store {
    let mut s = Store::new();
    s.users = vec![user("u1", "ann", "111", "5"), user("u2", "bob", "222", "6"), user("u3", "cid", "111", "0")];
    s.rooms = vec![room("r1", "Tic Tac Toe"), room("r2", "Chat")];
    s.room_to_users = vec![member("m1", "r1", "u1"), member("m2", "r2", "u2"), member("m3", "r1", "u2")];
    s.messages = vec![message("x1", "r1", "u1", "hi"), message("x2", "r2", "u2", "yo"), message("x3", "r1", "u9", "lost")];
    s.tic_tac_toe_games = vec![game("g1", "u1", Some("u2"), Some("u1"))];
    s
}

#[test]
fn empty_store() {
    let s = Store::new();
    assert!(s.users.is_empty() && s.rooms.is_empty() && s.room_to_users.is_empty());
    assert!(s.messages.is_empty() && s.tic_tac_toe_games.is_empty() && s.tic_tac_toe_moves.is_empty());
    assert!(s.check_keys());
}

#[test]
fn check_keys_finds_duplicates() {
    let mut s = lobby();
    assert!(s.check_keys());
    s.rooms.push(room("r1", "again"));
    assert!(!s.check_keys());
}

#[test]
fn registering_a_user() {
    let mut s = Store::new();
    let u = s.insert_new_user("ann", "555").unwrap();
    assert_eq!(u.username, "ann");
    assert_eq!(u.phone, "555");
    assert_eq!(u.web_socket_session, "0");
    assert!(is_uuid_v4_text(&u.id), "{}", u.id);
    assert!(u.created_at.ends_with("+00:00") && u.created_at.len() >= 25, "{}", u.created_at);
    assert_eq!(s.users, vec![u.clone()]);
    // What was written reads back, by id and by phone.
    assert_eq!(s.find_user_by_uid(u.id.clone()), Some(u.clone()));
    assert_eq!(s.find_user_by_phone("555".to_string()), Some(u));
}

#[test]
fn duplicate_keys_are_refused() {
    let mut s = lobby();
    assert_eq!(s.insert_user(user("u1", "dup", "9", "9")), Err(DbError::DuplicateKey));
    assert_eq!(s.users.len(), 3);
    assert_eq!(s.insert_user(user("u4", "dan", "9", "9")), Ok(()));
    assert_eq!(s.users.len(), 4);
    assert_eq!(s.insert_game(game("g1", "x", None, None)), Err(DbError::DuplicateKey));
    assert_eq!(s.insert_move(played("mv", "g1", "u1", 0, 0)), Ok(()));
    assert_eq!(s.insert_move(played("mv", "g1", "u1", 1, 1)), Err(DbError::DuplicateKey));
    assert_eq!(s.insert_room_to_user(member("m1", "r2", "u3")), Err(DbError::DuplicateKey));
    assert_eq!(s.insert_message(message("x1", "r1", "u1", "again")), Err(DbError::DuplicateKey));
}

#[test]
fn finding_users() {
    let s = lobby();
    assert_eq!(s.find_user_by_ws("6".to_string()).username, "bob");
    assert_eq!(s.find_user_by_uid("u3".to_string()).unwrap().username, "cid");
    assert_eq!(s.find_user_by_uid("nobody".to_string()), None);
    // The first user with the phone.
    assert_eq!(s.find_user_by_phone("111".to_string()).unwrap().id, "u1");
    assert_eq!(s.find_user_by_phone("999".to_string()), None);
}

#[test]
fn updating_a_session() {
    let mut s = lobby();
    assert_eq!(s.update_user_session("u2".to_string(), "77".to_string()), 1);
    assert_eq!(s.find_user_by_uid("u2".to_string()).unwrap().web_socket_session, "77");
    assert_eq!(s.find_user_by_ws("77".to_string()).id, "u2");
    assert_eq!(s.update_user_session("nobody".to_string(), "1".to_string()), 0);
    assert_eq!(s.users[0].web_socket_session, "5");
}

#[test]
fn display_messages_join_authors() {
    let s = lobby();
    let shown = s.get_display_messages_by_room_uid("r1".to_string());
    assert_eq!(shown.len(), 1);
    assert_eq!(shown[0].content, "hi");
    assert_eq!(shown[0].username, "ann");
    assert!(s.get_display_messages_by_room_uid("r3".to_string()).is_empty());
}

#[test]
fn rooms_and_their_users() {
    let s = lobby();
    assert_eq!(s.get_rooms(), s.rooms);
    let users = s.get_users_in_room("r1".to_string());
    assert_eq!(users.iter().map(|u| u.id.as_str()).collect::<Vec<_>>(), vec!["u1", "u2"]);
    let grouped = s.get_rooms_with_users();
    assert_eq!(grouped.len(), 2);
    assert_eq!(grouped[0].room.id, "r1");
    assert_eq!(grouped[0].users.iter().map(|u| u.id.as_str()).collect::<Vec<_>>(), vec!["u1", "u2"]);
    assert_eq!(grouped[1].room.id, "r2");
    assert_eq!(grouped[1].users.iter().map(|u| u.id.as_str()).collect::<Vec<_>>(), vec!["u2"]);
}

#[test]
fn memberships_of_unknown_rows_are_skipped_in_grouping() {
    let mut s = lobby();
    s.room_to_users.push(member("m4", "r2", "ghost"));
    s.room_to_users.push(member("m5", "nowhere", "u1"));
    let grouped = s.get_rooms_with_users();
    assert_eq!(grouped[1].users.len(), 1);
    assert!(!s.can_list_room(&"r2".to_string()));
    assert!(s.can_list_room(&"r1".to_string()));
}

#[test]
fn games_show_only_in_the_tic_tac_toe_room() {
    let s = lobby();
    assert_eq!(s.get_games_in_room("r1".to_string()).len(), 1);
    assert!(s.get_games_in_room("r2".to_string()).is_empty());
    assert!(s.get_games_in_room("r9".to_string()).is_empty());
}

#[test]
fn current_room() {
    let s = lobby();
    assert_eq!(s.get_current_room("5".to_string()).unwrap().id, "r1");
    assert_eq!(s.get_current_room("0".to_string()), None);
    assert!(s.can_find_current_room(&"6".to_string()));
    assert!(!s.can_find_current_room(&"404".to_string()));
    let with_users = s.get_current_room_with_users("6".to_string());
    assert_eq!(with_users.room.id, "r2");
    assert_eq!(with_users.users.len(), 1);
}

#[test]
fn joining_and_leaving_rooms() {
    let mut s = lobby();
    let row = s.join_room("r2", "u3").unwrap();
    assert_eq!((row.room.as_str(), row.user.as_str()), ("r2", "u3"));
    assert!(is_uuid_v4_text(&row.id));
    assert_eq!(s.room_to_users.len(), 4);
    assert_eq!(s.room_to_users[3], row);
    // Joining again adds no membership.
    let again = s.join_room("r2", "u3").unwrap();
    assert_eq!(again.room, "r2");
    assert_eq!(s.room_to_users.len(), 4);
    s.leave_room("r2", "u3");
    assert_eq!(s.room_to_users.len(), 3);
    assert!(s.room_to_users.iter().all(|d| !(d.room == "r2" && d.user == "u3")));
}

#[test]
fn opponents() {
    let s = lobby();
    assert_eq!(s.get_oponent("g1".to_string(), "5".to_string()), "6");
    assert_eq!(s.get_oponent("g1".to_string(), "6".to_string()), "5");
    assert_eq!(s.get_oponent("g9".to_string(), "5".to_string()), "");
    assert!(s.can_find_opponent(&"g1".to_string(), &"5".to_string()));
    assert!(!s.can_find_opponent(&"g1".to_string(), &"404".to_string()));
}

#[test]
fn games_turns_and_squares() {
    let mut s = lobby();
    let g = s.create_tic_tac_toe("0".to_string()).unwrap();
    assert_eq!(g.player_1, "u3");
    assert_eq!(g.player_2, None);
    assert_eq!(g.turn, None);
    assert_eq!(g.game_status, "Active");
    assert!(is_uuid_v4_text(&g.id));
    assert_eq!(s.find_game(&g.id), Some(g.clone()));
    assert!(!s.your_turn(g.id.clone(), "u3".to_string()));
    s.join_game(&g.id, "u1");
    let joined = s.find_game(&g.id).unwrap();
    assert_eq!(joined.player_2.as_deref(), Some("u1"));
    assert_eq!(joined.turn.as_deref(), Some("u1"));
    assert!(s.your_turn(g.id.clone(), "u1".to_string()));
    assert!(s.legal_move(g.id.clone(), 1, 1));
    let m = s.insert_new_move(new_move(&g.id, "u1", 1, 1)).unwrap();
    assert_eq!((m.row_number, m.column_number), (1, 1));
    assert!(is_uuid_v4_text(&m.id));
    // The square is taken, and the turn passed to the first player.
    assert!(!s.legal_move(g.id.clone(), 1, 1));
    assert!(s.legal_move(g.id.clone(), 0, 1));
    assert!(s.your_turn(g.id.clone(), "u3".to_string()));
    assert!(!s.your_turn(g.id.clone(), "u1".to_string()));
    s.insert_new_move(new_move(&g.id, "u3", 0, 0)).unwrap();
    assert!(s.your_turn(g.id.clone(), "u1".to_string()));
    assert_eq!(s.get_game_result(g.id.clone()), "Active");
}

#[test]
fn game_results() {
    let mut s = lobby();
    s.tic_tac_toe_moves = vec![
        played("a", "g1", "u1", 0, 0),
        played("b", "g1", "u2", 1, 0),
        played("c", "g1", "u1", 0, 1),
    ];
    assert_eq!(s.game_result(new_move("g1", "u1", 0, 1)), "Active");
    s.tic_tac_toe_moves.push(played("d", "g1", "u1", 0, 2));
    assert_eq!(s.game_result(new_move("g1", "u1", 0, 2)), "player_1_won");
    assert_eq!(s.get_game_result("g1".to_string()), "player_1_won");
    s.tic_tac_toe_moves.push(played("e", "g1", "u2", 1, 1));
    s.tic_tac_toe_moves.push(played("f", "g1", "u2", 1, 2));
    assert_eq!(s.game_result(new_move("g1", "u2", 1, 2)), "player_2_won");
    assert_eq!(s.get_game_result("g1".to_string()), "player_2_won");
}

#[test]
fn five_marks_without_a_line_is_a_draw() {
    let mut s = lobby();
    s.tic_tac_toe_moves = vec![
        played("a", "g1", "u1", 0, 0),
        played("b", "g1", "u1", 0, 1),
        played("c", "g1", "u1", 1, 2),
        played("d", "g1", "u1", 2, 0),
        played("e", "g1", "u1", 2, 1),
    ];
    assert_eq!(s.game_result(new_move("g1", "u1", 2, 1)), "draw");
    assert_eq!(s.get_game_result("g1".to_string()), "draw");
}

#[test]
fn posting_a_message() {
    let mut s = lobby();
    let m = s.insert_new_message("6".to_string(), "hello".to_string()).unwrap();
    assert_eq!(m.room_id, "r2");
    assert_eq!(m.user_id, "u2");
    assert_eq!(m.content, "hello");
    assert_eq!(s.messages.last(), Some(&m));
    let shown = s.get_display_messages_by_room_uid("r2".to_string());
    assert_eq!(shown.last().unwrap().content, "hello");
    assert_eq!(shown.last().unwrap().username, "bob");
}

#[test]
fn a_played_square_stays_taken() {
    let mut s = lobby();
    assert!(s.legal_move("g1".to_string(), 1, 1));
    assert!(s.insert_new_move(new_move("g1", "u1", 1, 1)).is_ok());
    assert!(!s.legal_move("g1".to_string(), 1, 1));
    s.join_game("g1", "u3");
    s.leave_room("r1", "u1");
    assert!(s.insert_new_message("6".to_string(), "again".to_string()).is_ok());
    assert!(s.create_tic_tac_toe("6".to_string()).is_ok());
    assert!(!s.legal_move("g1".to_string(), 1, 1));
    assert!(s.legal_move("g1".to_string(), 0, 0));
}

#[test]
fn the_joining_player_moves_first() {
    let mut s = lobby();
    let g = s.create_tic_tac_toe("5".to_string()).unwrap();
    assert!(!s.your_turn(g.id.clone(), "u1".to_string()));
    assert!(!s.your_turn(g.id.clone(), "u2".to_string()));
    s.join_game(&g.id, "u2");
    assert!(s.your_turn(g.id.clone(), "u2".to_string()));
    assert!(!s.your_turn(g.id.clone(), "u1".to_string()));
}

#[test]
fn joining_a_room_on_fresh_memberships_succeeds() {
    let mut s = Store::new();
    let row = s.join_room("r1", "u1").unwrap();
    assert_eq!(s.room_to_users, vec![row.clone()]);
    assert!(is_uuid_v4_text(&row.id));
    let again = s.join_room("r1", "u1").unwrap();
    assert_eq!(s.room_to_users, vec![row]);
    assert_eq!(again.room, "r1");
}

#[test]
fn game_keys_are_checked_alone() {
    let mut s = lobby();
    s.rooms.push(room("r1", "again"));
    assert!(s.game_keys_distinct());
    s.tic_tac_toe_games.push(game("g1", "u2", None, None));
    assert!(!s.game_keys_distinct());
}
