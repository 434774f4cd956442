use mpc_rooms::registry::RoomRegistry;
use mpc_rooms::room::{Action, RoomAction, RoomError, RoomResponse, User};
use mpc_rooms::session::{handle_command, Reply};

fn user(id: &str) -> User<u8> {
    User::new(&id.to_string(), format!("userid<{}>", id), 0)
}

fn cmd(action: Action, room: &str, user_id: &str, data: Option<&str>) -> RoomAction {
    RoomAction {
        action,
        room_id: room.to_string(),
        user_id: user_id.to_string(),
        data: data.map(|d| d.to_string()),
    }
}

fn success(reply: &Reply) -> &RoomAction {
    match reply {
        Reply::Respond(RoomResponse::Success(a)) => a,
        _ => panic!("expected a success reply"),
    }
}

fn error(reply: &Reply) -> &RoomError {
    match reply {
        Reply::Respond(RoomResponse::Error(e)) => e,
        _ => panic!("expected an error reply"),
    }
}

#[test]
fn create_join_list_leave() {
    let mut rooms: RoomRegistry<u8> = RoomRegistry::new();
    let o = handle_command(&mut rooms, user("alice"), cmd(Action::CreateRoom, "", "alice", None));
    let room = success(&o.reply).room_id.clone();
    assert!(rooms.contains_room(&room));

    let o = handle_command(&mut rooms, user("bob"), cmd(Action::JoinRoom, &room, "someone-else", None));
    assert_eq!(success(&o.reply).action, Action::JoinRoom);
    assert_eq!(success(&o.reply).user_id, "bob");
    assert_eq!(o.notices.len(), 1);
    assert_eq!(o.notices[0].user_id, "alice");

    let o = handle_command(&mut rooms, user("bob"), cmd(Action::ListUsers, &room, "bob", None));
    assert_eq!(success(&o.reply).data, Some(r#"["alice","bob"]"#.to_string()));

    let o = handle_command(&mut rooms, user("bob"), cmd(Action::LeaveRoom, &room, "bob", None));
    assert_eq!(success(&o.reply).action, Action::LeaveRoom);
    let o = handle_command(&mut rooms, user("alice"), cmd(Action::LeaveRoom, &room, "alice", None));
    assert_eq!(success(&o.reply).action, Action::LeaveRoom);
    assert!(!rooms.contains_room(&room));
}

#[test]
fn missing_room_errors() {
    let mut rooms: RoomRegistry<u8> = RoomRegistry::new();
    for a in [Action::JoinRoom, Action::LeaveRoom, Action::ListUsers] {
        let o = handle_command(&mut rooms, user("bob"), cmd(a, "r", "bob", None));
        assert!(matches!(error(&o.reply), RoomError::RoomDoesNotExists(r) if r == "r"));
    }
}

#[test]
fn messages_without_data_are_refused() {
    let mut rooms: RoomRegistry<u8> = RoomRegistry::new();
    for a in [Action::SendDirectMessage, Action::BroadcastMessage] {
        let o = handle_command(&mut rooms, user("bob"), cmd(a, "r", "claimed", None));
        match error(&o.reply) {
            RoomError::MissingData(r, u, act) => {
                assert_eq!(r, "r");
                assert_eq!(u, "claimed");
                assert_eq!(*act, a);
            }
            other => panic!("unexpected {:?}", other),
        }
        assert!(o.messages.is_empty());
    }
}

#[test]
fn direct_message_flow() {
    let mut rooms: RoomRegistry<u8> = RoomRegistry::new();
    rooms.create_room_with_id("r".to_string(), user("alice")).unwrap();
    rooms.join_room(&"r".to_string(), user("bob")).unwrap();
    let o = handle_command(&mut rooms, user("alice"), cmd(Action::SendDirectMessage, "r", "alice", Some("bob:hi:there")));
    assert_eq!(o.messages.len(), 1);
    assert_eq!(o.messages[0].receiver_id, "bob");
    assert_eq!(o.messages[0].content, "hi:there");
    assert!(matches!(error(&o.reply), RoomError::TargetUserNotFound(r, u) if r == "r" && u == "bob"));
}

#[test]
fn broadcast_flow() {
    let mut rooms: RoomRegistry<u8> = RoomRegistry::new();
    rooms.create_room_with_id("r".to_string(), user("alice")).unwrap();
    rooms.join_room(&"r".to_string(), user("bob")).unwrap();
    let o = handle_command(&mut rooms, user("alice"), cmd(Action::BroadcastMessage, "r", "alice", Some("x:hello")));
    assert!(matches!(o.reply, Reply::Unanswered));
    assert_eq!(o.messages.len(), 2);
    assert!(o.messages.iter().all(|m| m.content == "hello" && m.sender_id == "alice"));
    let o = handle_command(&mut rooms, user("alice"), cmd(Action::BroadcastMessage, "none", "alice", Some("hello")));
    assert!(matches!(error(&o.reply), RoomError::LockFailed));
}

#[test]
fn error_action_is_ignored() {
    let mut rooms: RoomRegistry<u8> = RoomRegistry::new();
    let o = handle_command(&mut rooms, user("alice"), cmd(Action::Error, "r", "alice", None));
    assert!(matches!(o.reply, Reply::Ignore));
}
