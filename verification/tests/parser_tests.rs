use rustirc2::parser::parse_command;
use rustirc2::parser::Command;

#[test]
fn test_parse_nick() {
    assert_eq!(parse_command("NICK alice"), Some(Command::Nick("alice".to_string())));
    assert_eq!(parse_command("nick alice"), Some(Command::Nick("alice".to_string())));
    assert_eq!(parse_command("NICK   alice  "), Some(Command::Nick("alice".to_string())));
    assert_eq!(parse_command("NICK"), Some(Command::Nick("".to_string())));
}

#[test]
fn test_parse_user() {
    assert_eq!(
        parse_command("USER alice 0 * :Alice Example"),
        Some(Command::User(
            "alice".to_string(),
            "0".to_string(),
            "Alice Example".to_string()
        ))
    );
    assert_eq!(parse_command("USER alice 0 *"), None);
    assert_eq!(parse_command("USER alice"), None);
    assert_eq!(parse_command("USER alice 0 * Alice"), None);
}

#[test]
fn test_parse_join_part_names() {
    assert_eq!(parse_command("JOIN #rust"), Some(Command::Join("#rust".to_string())));
    assert_eq!(parse_command("PART #rust"), Some(Command::Part("#rust".to_string())));
    assert_eq!(parse_command("NAMES #rust"), Some(Command::Names("#rust".to_string())));
}

#[test]
fn test_parse_privmsg() {
    assert_eq!(
        parse_command("PRIVMSG bob :hello there"),
        Some(Command::PrivMsg("bob".to_string(), "hello there".to_string()))
    );
    assert_eq!(
        parse_command("PRIVMSG #room :a:b:c"),
        Some(Command::PrivMsg("#room".to_string(), "a:b:c".to_string()))
    );
    assert_eq!(parse_command("PRIVMSG bob hello"), None);
}

#[test]
fn test_parse_quit_and_list() {
    assert_eq!(parse_command("QUIT"), Some(Command::Quit(None)));
    assert_eq!(parse_command("QUIT bye"), Some(Command::Quit(Some("bye".to_string()))));
    assert_eq!(parse_command("QUIT :bye"), Some(Command::Quit(Some("bye".to_string()))));
    assert_eq!(
        parse_command("QUIT :gone for good"),
        Some(Command::Quit(Some("gone for good".to_string())))
    );
    assert_eq!(parse_command("LIST"), Some(Command::List(None)));
    assert_eq!(parse_command("LIST #one"), Some(Command::List(Some("#one".to_string()))));
}

#[test]
fn test_parse_ping_pong() {
    assert_eq!(parse_command("PING tok"), Some(Command::Ping("tok".to_string())));
    assert_eq!(parse_command("PONG tok"), Some(Command::Pong("tok".to_string())));
}

#[test]
fn test_parse_topic() {
    assert_eq!(
        parse_command("TOPIC #room"),
        Some(Command::Topic("#room".to_string(), None))
    );
    assert_eq!(
        parse_command("TOPIC #room :the topic"),
        Some(Command::Topic("#room".to_string(), Some("the topic".to_string())))
    );
    assert_eq!(
        parse_command("TOPIC #room :"),
        Some(Command::Topic("#room".to_string(), Some("".to_string())))
    );
}

#[test]
fn test_parse_cap() {
    assert_eq!(
        parse_command("CAP LS"),
        Some(Command::Cap("LS".to_string(), None))
    );
    assert_eq!(
        parse_command("CAP REQ :sasl"),
        Some(Command::Cap("REQ".to_string(), Some(":sasl".to_string())))
    );
}

#[test]
fn test_parse_unimplemented_verbs() {
    assert_eq!(
        parse_command("MODE #room +o"),
        Some(Command::Mode("#room".to_string(), "+o".to_string(), None))
    );
    assert_eq!(
        parse_command("INVITE bob #room"),
        Some(Command::Invite("bob".to_string(), "#room".to_string()))
    );
    assert_eq!(
        parse_command("KICK #room bob :rude"),
        Some(Command::Kick("#room".to_string(), "bob".to_string(), Some(":rude".to_string())))
    );
    assert_eq!(parse_command("WHO bob"), Some(Command::Who("bob".to_string())));
    assert_eq!(parse_command("WHOIS bob"), Some(Command::WhoisUser("bob".to_string())));
    assert_eq!(
        parse_command("WHOWAS bob"),
        Some(Command::Whowas("bob".to_string(), None, None))
    );
}

#[test]
fn test_parse_rejects_unknown() {
    assert_eq!(parse_command(""), None);
    assert_eq!(parse_command("BOGUS stuff"), None);
    assert_eq!(parse_command("NICKNAME alice"), None);
}
