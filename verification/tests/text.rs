use mpc_rooms::room::{Action, RoomError};
use mpc_rooms::text::parse_direct_message_data;

#[test]
fn splits_target_and_message() {
    assert_eq!(parse_direct_message_data("bob:hello"), ("bob".to_string(), "hello".to_string()));
}

#[test]
fn splits_only_at_first_colon() {
    assert_eq!(parse_direct_message_data("a:b:c"), ("a".to_string(), "b:c".to_string()));
}

#[test]
fn no_colon_gives_empty_parts() {
    assert_eq!(parse_direct_message_data("nocolon"), (String::new(), String::new()));
    assert_eq!(parse_direct_message_data(""), (String::new(), String::new()));
}

#[test]
fn colon_at_edges() {
    assert_eq!(parse_direct_message_data(":x"), (String::new(), "x".to_string()));
    assert_eq!(parse_direct_message_data("x:"), ("x".to_string(), String::new()));
}

#[test]
fn non_ascii_text_is_split_by_characters() {
    assert_eq!(parse_direct_message_data("é:ü"), ("é".to_string(), "ü".to_string()));
}

#[test]
fn error_messages() {
    assert_eq!(RoomError::RoomAlreadyExists("r".to_string()).message(), "Room r already exists");
    assert_eq!(RoomError::RoomDoesNotExists("r".to_string()).message(), "Room r does not exist");
    assert_eq!(
        RoomError::TargetUserNotFound("r".to_string(), "u".to_string()).message(),
        "Target user u in room r does not exist"
    );
    assert_eq!(
        RoomError::MissingData("r".to_string(), "u".to_string(), Action::BroadcastMessage).message(),
        "Action BroadcastMessage from user u in room r is missing"
    );
    assert_eq!(RoomError::LockFailed.message(), "Failed to acquire lock");
}

#[test]
fn action_names() {
    assert_eq!(Action::CreateRoom.name(), "CreateRoom");
    assert_eq!(Action::SendDirectMessage.name(), "SendDirectMessage");
    assert_eq!(Action::Error.name(), "Error");
}
