use rustirc2::channel::Channel;
use rustirc2::message::Message;
use rustirc2::message::Recipient;
use rustirc2::state::ServerState;
use rustirc2::user::User;
use rustirc2::user::UserStatus;

#[test]
fn test_generate_client_id_uniqueness() {
    let mut state = ServerState::new();
    let id1 = state.generate_client_id();
    let id2 = state.generate_client_id();
    assert_ne!(id1, id2, "Generated IDs should be unique");
}

#[test]
fn test_generate_client_id_monotonic() {
    let mut state = ServerState::new();
    let id1 = state.generate_client_id();
    let id2 = state.generate_client_id();
    let id3 = state.generate_client_id();
    assert!(id1 < id2 && id2 < id3);
    assert_eq!(id1, 1);
}

#[test]
fn test_user_nickname_validation() {
    let mut user = User::new(1, "127.0.0.1".to_string());

    assert!(user.set_nickname("valid_nick".to_string()).is_ok());
    assert!(user.set_nickname("".to_string()).is_err());
    assert!(user.set_nickname("much_too_long_nickname".to_string()).is_err());
    assert!(user.set_nickname("invalid!".to_string()).is_err());
}

#[test]
fn test_user_nickname_validation_bounds() {
    let mut user = User::new(1, "127.0.0.1".to_string());

    assert!(user.set_nickname("a".to_string()).is_ok());
    assert!(user.set_nickname("abcdefghij0123456789".to_string()).is_ok());
    assert!(user.set_nickname("abcdefghij0123456789x".to_string()).is_err());
    assert!(user.set_nickname("with space".to_string()).is_err());
    assert!(user.set_nickname("hyphen-and_underscore".to_string()).is_err());
    assert!(user.set_nickname("hy-phen_ok".to_string()).is_ok());
}

#[test]
fn test_user_join_leave_channel() {
    let mut user = User::new(1, "127.0.0.1".to_string());

    user.join_channel("#test".to_string());
    assert!(user.channels.contains(&"#test".to_string()));

    user.leave_channel("#test");
    assert!(!user.channels.contains(&"#test".to_string()));
}

#[test]
fn test_user_join_channel_idempotent() {
    let mut user = User::new(1, "127.0.0.1".to_string());

    user.join_channel("#test".to_string());
    user.join_channel("#test".to_string());
    assert_eq!(user.channels.len(), 1);
}

#[test]
fn test_user_status_changes() {
    let mut user = User::new(1, "127.0.0.1".to_string());

    assert_eq!(user.status, UserStatus::Online);

    user.set_away(Some("Gone fishing".to_string()));
    assert_eq!(user.status, UserStatus::Away(Some("Gone fishing".to_string())));

    user.set_online();
    assert_eq!(user.status, UserStatus::Online);
}

#[test]
fn test_user_get_host() {
    let user = User::new(7, "10.0.0.9".to_string());
    assert_eq!(user.get_host().as_str(), "10.0.0.9");
}

#[test]
fn test_channel_members() {
    let mut channel = Channel::new("#test".to_string());

    channel.add_member(1);
    assert!(channel.members.contains(&1));

    channel.remove_member(&1);
    assert!(!channel.members.contains(&1));
}

#[test]
fn test_channel_member_no_duplicates() {
    let mut channel = Channel::new("#test".to_string());

    channel.add_member(1);
    channel.add_member(1);
    assert_eq!(channel.members.len(), 1);
}

#[test]
fn test_channel_topic() {
    let mut channel = Channel::new("#test".to_string());

    channel.set_topic("Test Topic".to_string());
    assert_eq!(channel.topic, Some("Test Topic".to_string()));
}

#[test]
fn test_channel_key() {
    let mut channel = Channel::new("#test".to_string());

    channel.set_key(Some("secret".to_string()));
    assert_eq!(channel.key, Some("secret".to_string()));
    channel.set_key(None);
    assert_eq!(channel.key, None);
}

#[test]
fn test_message_creation() {
    let user_message = Message::new(1, Recipient::User(2), "Hello".to_string());
    let channel_message = Message::new(1, Recipient::Channel("#test".to_string()), "Hello all".to_string());

    assert_eq!(user_message.sender_id, 1);
    assert_eq!(channel_message.sender_id, 1);

    match user_message.recipient {
        Recipient::User(id) => assert_eq!(id, 2),
        _ => panic!("Expected User recipient"),
    }

    match channel_message.recipient {
        Recipient::Channel(name) => assert_eq!(name, "#test"),
        _ => panic!("Expected Channel recipient"),
    }

    assert!(user_message.timestamp <= chrono::Utc::now().timestamp());
    assert!(channel_message.timestamp <= chrono::Utc::now().timestamp());
}

#[test]
fn test_decimal_rendering() {
    assert_eq!(rustirc2::strings::usize_to_string(0), "0");
    assert_eq!(rustirc2::strings::usize_to_string(7), "7");
    assert_eq!(rustirc2::strings::usize_to_string(42), "42");
    assert_eq!(rustirc2::strings::usize_to_string(1000), "1000");
    assert_eq!(
        rustirc2::strings::usize_to_string(usize::MAX),
        format!("{}", usize::MAX)
    );
}

#[test]
fn test_string_order_helpers() {
    assert!(rustirc2::strings::str_lt("#a", "#b"));
    assert!(!rustirc2::strings::str_lt("#b", "#a"));
    assert!(!rustirc2::strings::str_lt("#a", "#a"));
    assert!(rustirc2::strings::str_lt("#a", "#ab"));
    assert!(rustirc2::strings::str_eq("abc", "abc"));
    assert!(!rustirc2::strings::str_eq("abc", "abd"));
    assert_eq!(rustirc2::strings::trim("  x y\t"), "x y");
}
