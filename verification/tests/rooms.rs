use mpc_rooms::registry::RoomRegistry;
use mpc_rooms::room::{Action, RoomError, User};

fn user(id: &str, tag: u8) -> User<u8> {
    User::new(&id.to_string(), format!("userid<{}>", id), tag)
}

fn room_with(ids: &[&str]) -> (RoomRegistry<u8>, String) {
    let mut reg: RoomRegistry<u8> = RoomRegistry::new();
    let room = "room-1".to_string();
    reg.create_room_with_id(room.clone(), user(ids[0], 0)).unwrap();
    for (i, id) in ids.iter().enumerate().skip(1) {
        reg.join_room(&room, user(id, i as u8)).unwrap();
    }
    (reg, room)
}

#[test]
fn user_accessors() {
    let u = user("alice", 7);
    assert_eq!(u.id(), "alice");
    assert_eq!(u.publickey(), "userid<alice>");
    assert_eq!(*u.sender(), 7);
}

#[test]
fn create_room_with_given_id() {
    let mut reg: RoomRegistry<u8> = RoomRegistry::new();
    let a = reg.create_room_with_id("r1".to_string(), user("alice", 0)).unwrap();
    assert_eq!(a.action, Action::CreateRoom);
    assert_eq!(a.room_id, "r1");
    assert_eq!(a.user_id, "alice");
    assert_eq!(a.data, Some("Room r1 created".to_string()));
    assert!(reg.contains_room(&"r1".to_string()));
    assert!(reg.member(&"r1".to_string(), &"alice".to_string()).is_some());
}

#[test]
fn create_room_with_taken_id_is_refused() {
    let mut reg: RoomRegistry<u8> = RoomRegistry::new();
    reg.create_room_with_id("r1".to_string(), user("alice", 0)).unwrap();
    match reg.create_room_with_id("r1".to_string(), user("bob", 1)) {
        Err(RoomError::RoomAlreadyExists(r)) => assert_eq!(r, "r1"),
        other => panic!("unexpected {:?}", other),
    }
    assert!(reg.member(&"r1".to_string(), &"bob".to_string()).is_none());
}

#[test]
fn create_room_draws_a_fresh_uuid() {
    let mut reg: RoomRegistry<u8> = RoomRegistry::new();
    let a = reg.create_room(user("alice", 0)).unwrap();
    let b = reg.create_room(user("bob", 1)).unwrap();
    assert_eq!(a.room_id.chars().count(), 36);
    assert_ne!(a.room_id, b.room_id);
    assert_eq!(a.data, Some(format!("Room {} created", a.room_id)));
    assert!(reg.contains_room(&a.room_id));
    assert!(reg.contains_room(&b.room_id));
}

#[test]
fn join_notifies_the_other_members() {
    let (mut reg, room) = room_with(&["alice", "bob"]);
    let (a, notices) = reg.join_room(&room, user("carol", 2)).unwrap();
    assert_eq!(a.action, Action::JoinRoom);
    assert_eq!(a.user_id, "carol");
    assert_eq!(a.data, Some("User carol joined room room-1".to_string()));
    assert_eq!(notices.len(), 2);
    assert_eq!(notices[0].user_id, "alice");
    assert_eq!(notices[1].user_id, "bob");
    for n in &notices {
        assert_eq!(n.action, Action::ListUsers);
        assert_eq!(n.room_id, "room-1");
        assert_eq!(n.data, Some(r#"["alice","bob","carol"]"#.to_string()));
    }
}

#[test]
fn rejoining_replaces_the_member() {
    let (mut reg, room) = room_with(&["alice", "bob"]);
    let (_, notices) = reg.join_room(&room, user("alice", 9)).unwrap();
    assert_eq!(notices.len(), 1);
    assert_eq!(notices[0].user_id, "bob");
    assert_eq!(notices[0].data, Some(r#"["alice","bob"]"#.to_string()));
    assert_eq!(*reg.member(&room, &"alice".to_string()).unwrap().sender(), 9);
}

#[test]
fn join_missing_room_is_refused() {
    let mut reg: RoomRegistry<u8> = RoomRegistry::new();
    match reg.join_room(&"nope".to_string(), user("alice", 0)) {
        Err(RoomError::RoomDoesNotExists(r)) => assert_eq!(r, "nope"),
        other => panic!("unexpected {:?}", other),
    }
    assert!(!reg.contains_room(&"nope".to_string()));
}

#[test]
fn list_users_gives_json_array_of_ids() {
    let (reg, room) = room_with(&["alice", "bob \"b\""]);
    let a = reg.get_list_users_in_room(&room, &user("zed", 5)).unwrap();
    assert_eq!(a.action, Action::ListUsers);
    assert_eq!(a.user_id, "zed");
    assert_eq!(a.data, Some(r#"["alice","bob \"b\""]"#.to_string()));
    match reg.get_list_users_in_room(&"x".to_string(), &user("zed", 5)) {
        Err(RoomError::RoomDoesNotExists(r)) => assert_eq!(r, "x"),
        other => panic!("unexpected {:?}", other),
    }
}

#[test]
fn leave_keeps_room_with_members() {
    let (mut reg, room) = room_with(&["alice", "bob"]);
    let a = reg.leave_room(&room, &user("alice", 0)).unwrap();
    assert_eq!(a.action, Action::LeaveRoom);
    assert_eq!(a.data, Some("User alice leave room room-1".to_string()));
    assert!(reg.contains_room(&room));
    assert!(reg.member(&room, &"alice".to_string()).is_none());
    assert!(reg.member(&room, &"bob".to_string()).is_some());
}

#[test]
fn last_member_leaving_removes_room() {
    let (mut reg, room) = room_with(&["alice"]);
    reg.leave_room(&room, &user("alice", 0)).unwrap();
    assert!(!reg.contains_room(&room));
    match reg.leave_room(&room, &user("alice", 0)) {
        Err(RoomError::RoomDoesNotExists(r)) => assert_eq!(r, room),
        other => panic!("unexpected {:?}", other),
    }
}

#[test]
fn leave_by_non_member_succeeds_without_change() {
    let (mut reg, room) = room_with(&["alice"]);
    assert!(reg.leave_room(&room, &user("bob", 1)).is_ok());
    assert!(reg.member(&room, &"alice".to_string()).is_some());
}

#[test]
fn join_then_leave_restores_members() {
    let (mut reg, room) = room_with(&["alice", "bob"]);
    let before = reg.get_list_users_in_room(&room, &user("x", 0)).unwrap().data;
    reg.join_room(&room, user("carol", 2)).unwrap();
    reg.leave_room(&room, &user("carol", 2)).unwrap();
    let after = reg.get_list_users_in_room(&room, &user("x", 0)).unwrap().data;
    assert_eq!(before, after);
}

#[test]
fn direct_message_is_delivered_but_reported_not_found() {
    let (reg, room) = room_with(&["alice", "bob"]);
    let (m, r) = reg.send_direct_message(&room, &user("alice", 0), &"bob".to_string(), "hi");
    let m = m.unwrap();
    assert_eq!(m.sender_id, "alice");
    assert_eq!(m.receiver_id, "bob");
    assert_eq!(m.content, "hi");
    match r {
        Err(RoomError::TargetUserNotFound(r, u)) => {
            assert_eq!(r, "room-1");
            assert_eq!(u, "bob");
        }
        other => panic!("unexpected {:?}", other),
    }
    let (m, r) = reg.send_direct_message(&room, &user("alice", 0), &"dave".to_string(), "hi");
    assert!(m.is_none());
    assert!(matches!(r, Err(RoomError::TargetUserNotFound(_, _))));
}

#[test]
fn broadcast_reaches_every_member() {
    let (reg, room) = room_with(&["alice", "bob"]);
    let (ms, r) = reg.broadcast_message_to_room(&room, &user("alice", 0), "hey");
    assert!(r.is_ok());
    assert_eq!(ms.len(), 2);
    assert_eq!(ms[0].receiver_id, "alice");
    assert_eq!(ms[1].receiver_id, "bob");
    assert!(ms.iter().all(|m| m.sender_id == "alice" && m.content == "hey"));
    let (ms, r) = reg.broadcast_message_to_room(&"none".to_string(), &user("alice", 0), "hey");
    assert!(ms.is_empty());
    assert!(matches!(r, Err(RoomError::LockFailed)));
}

fn is_v4_text(s: &str) -> bool {
    let c: Vec<char> = s.chars().collect();
    c.len() == 36
        && c.iter().enumerate().all(|(i, ch)| {
            if [8, 13, 18, 23].contains(&i) {
                *ch == '-'
            } else {
                ch.is_ascii_hexdigit() && !ch.is_ascii_uppercase()
            }
        })
        && c[14] == '4'
        && "89ab".contains(c[19])
}

#[test]
fn created_room_ids_are_v4_uuids() {
    let mut reg: RoomRegistry<u8> = RoomRegistry::new();
    for i in 0..5u8 {
        let a = reg.create_room(user("alice", i)).unwrap();
        assert!(is_v4_text(&a.room_id), "{}", a.room_id);
    }
}

#[test]
fn list_escapes_like_json() {
    let (reg, room) = room_with(&["a\\b", "tab\there", "bell\u{7}", "é"]);
    let a = reg.get_list_users_in_room(&room, &user("zed", 5)).unwrap();
    assert_eq!(a.data, Some("[\"a\\\\b\",\"tab\\there\",\"bell\\u0007\",\"é\"]".to_string()));
}

#[test]
fn joining_twice_changes_nothing() {
    let (mut reg, room) = room_with(&["alice", "bob"]);
    let (a1, n1) = reg.join_room(&room, user("carol", 2)).unwrap();
    let (a2, n2) = reg.join_room(&room, user("carol", 2)).unwrap();
    assert_eq!(a1.data, a2.data);
    assert_eq!(n1.len(), n2.len());
    assert_eq!(n1[0].data, n2[0].data);
    let list = reg.get_list_users_in_room(&room, &user("x", 0)).unwrap().data;
    assert_eq!(list, Some(r#"["alice","bob","carol"]"#.to_string()));
}

#[test]
fn counted_ids_are_v4_and_distinct() {
    let a = mpc_rooms::room_ids::counted_id(0);
    let b = mpc_rooms::room_ids::counted_id(0x1234_5678_9abc_def0);
    assert_eq!(a, "00000000-0000-4000-8000-000000000000");
    assert_eq!(b, "00000000-0000-4001-8234-56789abcdef0");
    assert!(is_v4_text(&a));
    assert!(is_v4_text(&b));
}
