use game_lobby::db::Store;
use game_lobby::models::{NewTicTacToeMove, Room, RoomToUser, TicTacToeGame, User};
use game_lobby::session::{ChatRequest, Payload, WsChatSession};

fn user(id: &str, name: &str, ws: &str) -> User {
    User {
        id: id.to_string(),
        username: name.to_string(),
        phone: "1".to_string(),
        web_socket_session: ws.to_string(),
        created_at: "t".to_string(),
    }
}

fn room(id: &str, name: &str) -> Room {
    Room { id: id.to_string(), name: name.to_string(), created_at: "t".to_string(), game: None }
}

fn lobby() -> Store {
    let mut s = Store::new();
    s.users = vec![user("u1", "ann", "11"), user("u2", "bob", "22")];
    s.rooms = vec![room("r1", "Tic Tac Toe"), room("r2", "Chat")];
    s.room_to_users = vec![RoomToUser { id: "m1".to_string(), room: "r1".to_string(), user: "u1".to_string() }];
    s
}

fn session(id: usize) -> WsChatSession {
    WsChatSession { id, room: "main".to_string(), name: None }
}

fn mv(game: &str, player: &str, row: i32, col: i32) -> NewTicTacToeMove {
    NewTicTacToeMove { player_id: player.to_string(), game_id: game.to_string(), row_number: row, column_number: col }
}

#[test]
fn text_is_posted_and_echoed_to_the_room() {
    let mut s = lobby();
    let out = session(11).handle(&mut s, ChatRequest::Text { content: "hello".to_string() });
    assert!(!out.fault);
    assert_eq!(out.sent.len(), 1);
    assert_eq!(out.sent[0].payload, Payload::Echo);
    assert_eq!(out.sent[0].room.as_deref(), Some("r1"));
    assert_eq!(s.messages.len(), 1);
    assert_eq!(s.messages[0].content, "hello");
}

#[test]
fn text_from_a_user_in_no_room_faults() {
    let mut s = lobby();
    let out = session(22).handle(&mut s, ChatRequest::Text { content: "x".to_string() });
    assert!(out.fault);
    assert!(out.sent.is_empty());
    assert!(s.messages.is_empty());
}

#[test]
fn joining_a_room() {
    let mut s = lobby();
    let out = session(11).handle(&mut s, ChatRequest::Join { room: "r2".to_string() });
    assert!(!out.fault);
    assert_eq!(out.sent.len(), 2);
    assert_eq!(out.sent[0].payload, Payload::Left { username: "ann".to_string(), user_id: "u1".to_string() });
    assert_eq!(out.sent[0].room.as_deref(), Some("r1"));
    assert_eq!(out.sent[1].payload, Payload::Joined { user: s.users[0].clone() });
    assert_eq!(out.sent[1].room.as_deref(), Some("r2"));
    assert_eq!(s.room_to_users.len(), 1);
    assert_eq!(s.room_to_users[0].room, "r2");
    // Joining the room one is in does nothing.
    let again = session(11).handle(&mut s, ChatRequest::Join { room: "r2".to_string() });
    assert!(!again.fault && again.sent.is_empty());
    // A user in no room just enters.
    let first = session(22).handle(&mut s, ChatRequest::Join { room: "r1".to_string() });
    assert_eq!(first.sent.len(), 1);
    assert_eq!(s.room_to_users.len(), 2);
}

#[test]
fn a_game_is_created_joined_and_played() {
    let mut s = lobby();
    let created = session(11).handle(&mut s, ChatRequest::CreateGame);
    assert!(!created.fault);
    assert_eq!(created.sent[0].id, 0);
    let g: TicTacToeGame = match &created.sent[0].payload {
        Payload::GameCreated { game, user_id } => {
            assert_eq!(user_id, "u1");
            game.clone()
        }
        other => panic!("unexpected {:?}", other),
    };
    assert_eq!(s.tic_tac_toe_games, vec![g.clone()]);
    let joined = session(22).handle(&mut s, ChatRequest::JoinGame { game: g.id.clone() });
    assert_eq!(joined.sent[0].payload, Payload::GameJoined { game_id: g.id.clone(), user_id: "u2".to_string() });
    assert_eq!(joined.sent[0].game.as_deref(), Some(g.id.as_str()));
    // Bob has the turn; Ann's move is ignored.
    let early = session(11).handle(&mut s, ChatRequest::Move { new_move: mv(&g.id, "u1", 0, 0) });
    assert!(!early.fault && early.sent.is_empty());
    let plays = [("u2", 22usize, 1, 1), ("u1", 11, 0, 0), ("u2", 22, 1, 0), ("u1", 11, 0, 1), ("u2", 22, 1, 2)];
    let mut last = None;
    for (player, sid, r, c) in plays {
        let out = session(sid).handle(&mut s, ChatRequest::Move { new_move: mv(&g.id, player, r, c) });
        assert!(!out.fault);
        assert_eq!(out.sent.len(), 1, "move {} {} {}", player, r, c);
        last = Some(out);
    }
    match &last.unwrap().sent[0].payload {
        Payload::Moved { info, user_id } => {
            assert_eq!(user_id, "u2");
            assert_eq!(info.game_status, "player_2_won");
            assert_eq!(info.turn, "u1");
            assert_eq!((info.last_move.row_number, info.last_move.column_number), (1, 2));
        }
        other => panic!("unexpected {:?}", other),
    }
    // The game is over: further moves are ignored.
    let after = session(11).handle(&mut s, ChatRequest::Move { new_move: mv(&g.id, "u1", 2, 2) });
    assert!(!after.fault && after.sent.is_empty());
    assert_eq!(s.tic_tac_toe_moves.len(), 5);
}

#[test]
fn a_taken_square_is_refused() {
    let mut s = lobby();
    s.tic_tac_toe_games = vec![TicTacToeGame {
        id: "g1".to_string(),
        player_1: "u1".to_string(),
        player_2: Some("u2".to_string()),
        turn: Some("u1".to_string()),
        game_status: "Active".to_string(),
        created_at: "t".to_string(),
    }];
    let first = session(11).handle(&mut s, ChatRequest::Move { new_move: mv("g1", "u1", 2, 2) });
    assert_eq!(first.sent.len(), 1);
    let again = session(22).handle(&mut s, ChatRequest::Move { new_move: mv("g1", "u2", 2, 2) });
    assert!(!again.fault && again.sent.is_empty());
    assert_eq!(s.tic_tac_toe_moves.len(), 1);
}

#[test]
fn an_off_board_move_faults_after_it_is_recorded() {
    let mut s = lobby();
    s.tic_tac_toe_games = vec![TicTacToeGame {
        id: "g1".to_string(),
        player_1: "u1".to_string(),
        player_2: Some("u2".to_string()),
        turn: Some("u1".to_string()),
        game_status: "Active".to_string(),
        created_at: "t".to_string(),
    }];
    let out = session(11).handle(&mut s, ChatRequest::Move { new_move: mv("g1", "u1", 3, 0) });
    assert!(out.fault);
    assert_eq!(s.tic_tac_toe_moves.len(), 1);
    assert_eq!(s.tic_tac_toe_games[0].turn.as_deref(), Some("u2"));
}

#[test]
fn leave_and_other_kinds_do_nothing() {
    let mut s = lobby();
    let out = session(11).handle(&mut s, ChatRequest::Leave);
    assert!(!out.fault && out.sent.is_empty());
    let other = session(11).handle(&mut s, ChatRequest::Other);
    assert!(!other.fault && other.sent.is_empty());
}

#[test]
fn an_unknown_session_faults() {
    let mut s = lobby();
    for req in [ChatRequest::CreateGame, ChatRequest::JoinGame { game: "g".to_string() }, ChatRequest::Join { room: "r1".to_string() }] {
        let out = session(99).handle(&mut s, req);
        assert!(out.fault && out.sent.is_empty());
    }
}

#[test]
fn a_move_with_no_second_player_is_recorded_then_faults() {
    let mut s = lobby();
    s.tic_tac_toe_games = vec![TicTacToeGame {
        id: "g1".to_string(),
        player_1: "u1".to_string(),
        player_2: None,
        turn: Some("u1".to_string()),
        game_status: "Active".to_string(),
        created_at: "t".to_string(),
    }];
    let out = session(11).handle(&mut s, ChatRequest::Move { new_move: mv("g1", "u1", 0, 0) });
    assert!(out.fault && out.sent.is_empty());
    assert_eq!(s.tic_tac_toe_moves.len(), 1);
    assert_eq!(s.tic_tac_toe_moves[0].row_number, 0);
    assert_eq!(s.tic_tac_toe_games[0].turn.as_deref(), Some("u1"));
}
