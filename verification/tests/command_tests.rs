use rustirc2::handler::handle_command;
use rustirc2::handler::ServerError;
use rustirc2::parser::Command;
use rustirc2::state::ServerState;

fn session_with_nick(state: &mut ServerState, nick: &str) -> usize {
    let id = state.create_session("127.0.0.1".to_string());
    handle_command(Command::Nick(nick.to_string()), id, state).unwrap();
    id
}

fn channel_members(state: &ServerState, name: &str) -> Option<Vec<usize>> {
    state
        .channels
        .iter()
        .find(|c| c.name == name)
        .map(|c| c.members.clone())
}

#[test]
fn test_handle_nick_command() {
    let mut state = ServerState::new();
    let id = state.create_session("127.0.0.1".to_string());
    assert_eq!(id, 1);

    let command = Command::Nick("newname".to_string());
    let result = handle_command(command, 1, &mut state);
    assert!(result.is_ok());
    let messages = result.unwrap();
    assert_eq!(messages, vec![(1, ":<unknown> NICK :newname".to_string())]);

    assert_eq!(state.sessions[0].nickname, Some("newname".to_string()));
}

#[test]
fn test_handle_nick_command_invalid() {
    let mut state = ServerState::new();
    state.create_session("127.0.0.1".to_string());

    let result = handle_command(Command::Nick("bad nick!".to_string()), 1, &mut state);
    assert_eq!(result, Err(ServerError::InvalidNickname));
    assert_eq!(state.sessions[0].nickname, None);
}

#[test]
fn test_handle_user_command() {
    let mut state = ServerState::new();
    session_with_nick(&mut state, "User1");

    let command = Command::User("username".to_string(), "0".to_string(), "realname".to_string());
    let result = handle_command(command, 1, &mut state);
    assert!(result.is_ok());
    let messages = result.unwrap();
    assert_eq!(messages.len(), 6);
    assert!(messages[0].1.contains("001 User1 :Welcome to the IRC server!"));
    assert!(messages[1].1.contains("002 User1 :Your host is rustirc2"));
    assert!(messages[2].1.contains("003 User1 :This server was created"));
    assert!(messages[3].1.contains("004 User1 rustirc2 1.0 o o"));
    assert!(messages[4].1.contains("005 User1 CHANTYPES=# CHARSET=utf-8"));
    assert!(messages[5].1.contains("251 User1 :There are 1 users and 0 services on 1 server"));

    let user = &state.sessions[0];
    assert_eq!(user.username, Some("username".to_string()));
    assert_eq!(user.realname, Some("realname".to_string()));
}

#[test]
fn test_handle_join_command() {
    let mut state = ServerState::new();
    session_with_nick(&mut state, "testuser");

    let command = Command::Join("#testchannel".to_string());
    let result = handle_command(command, 1, &mut state);
    assert!(result.is_ok());
    let messages = result.unwrap();
    assert_eq!(messages, vec![
        (1, ":testuser JOIN :#testchannel".to_string()),
        (1, ":server 353 testuser = #testchannel :testuser".to_string()),
        (1, ":server 366 testuser #testchannel :End of /NAMES list".to_string()),
    ]);

    let members = channel_members(&state, "#testchannel").unwrap();
    assert!(members.contains(&1));
}

#[test]
fn test_handle_join_notifies_existing_members() {
    let mut state = ServerState::new();
    session_with_nick(&mut state, "alice");
    session_with_nick(&mut state, "bob");
    handle_command(Command::Join("#room".to_string()), 1, &mut state).unwrap();

    let messages = handle_command(Command::Join("#room".to_string()), 2, &mut state).unwrap();
    assert_eq!(messages, vec![
        (2, ":bob JOIN :#room".to_string()),
        (2, ":server 353 bob = #room :alice bob".to_string()),
        (2, ":server 366 bob #room :End of /NAMES list".to_string()),
        (1, ":server 353 alice = #room :alice bob".to_string()),
        (1, ":server 366 alice #room :End of /NAMES list".to_string()),
    ]);
}

#[test]
fn test_handle_join_idempotent() {
    let mut state = ServerState::new();
    session_with_nick(&mut state, "testuser");
    handle_command(Command::Join("#dup".to_string()), 1, &mut state).unwrap();
    handle_command(Command::Join("#dup".to_string()), 1, &mut state).unwrap();

    assert_eq!(channel_members(&state, "#dup").unwrap(), vec![1]);
    assert_eq!(state.sessions[0].channels, vec!["#dup".to_string()]);
}

#[test]
fn test_handle_part_command() {
    let mut state = ServerState::new();
    session_with_nick(&mut state, "testuser");
    handle_command(Command::Join("#testchannel".to_string()), 1, &mut state).unwrap();

    let command = Command::Part("#testchannel".to_string());
    let result = handle_command(command, 1, &mut state);
    assert!(result.is_ok());
    let messages = result.unwrap();
    assert_eq!(messages, vec![(1, ":testuser PART :#testchannel".to_string())]);

    assert!(channel_members(&state, "#testchannel").is_none());
    assert!(state.sessions[0].channels.is_empty());
}

#[test]
fn test_handle_part_unknown_channel() {
    let mut state = ServerState::new();
    session_with_nick(&mut state, "testuser");
    let result = handle_command(Command::Part("#nowhere".to_string()), 1, &mut state);
    assert_eq!(result, Err(ServerError::ChannelNotFound("#nowhere".to_string())));
}

#[test]
fn test_channel_gc_and_fresh_rejoin() {
    let mut state = ServerState::new();
    session_with_nick(&mut state, "alice");
    handle_command(Command::Join("#gc".to_string()), 1, &mut state).unwrap();
    handle_command(
        Command::Topic("#gc".to_string(), Some("old topic".to_string())),
        1,
        &mut state,
    )
    .unwrap();
    handle_command(Command::Part("#gc".to_string()), 1, &mut state).unwrap();
    assert!(channel_members(&state, "#gc").is_none());

    handle_command(Command::Join("#gc".to_string()), 1, &mut state).unwrap();
    let chan = state.channels.iter().find(|c| c.name == "#gc").unwrap();
    assert_eq!(chan.members, vec![1]);
    assert_eq!(chan.topic, None);
}

#[test]
fn test_channel_gc_on_quit() {
    let mut state = ServerState::new();
    session_with_nick(&mut state, "alice");
    session_with_nick(&mut state, "bob");
    handle_command(Command::Join("#stay".to_string()), 1, &mut state).unwrap();
    handle_command(Command::Join("#stay".to_string()), 2, &mut state).unwrap();
    handle_command(Command::Join("#solo".to_string()), 2, &mut state).unwrap();

    handle_command(Command::Quit(None), 2, &mut state).unwrap();
    assert!(channel_members(&state, "#solo").is_none());
    assert_eq!(channel_members(&state, "#stay").unwrap(), vec![1]);
}

#[test]
fn test_handle_privmsg_command() {
    let mut state = ServerState::new();
    session_with_nick(&mut state, "user1");
    session_with_nick(&mut state, "user2");
    handle_command(Command::Join("#testchannel".to_string()), 1, &mut state).unwrap();
    handle_command(Command::Join("#testchannel".to_string()), 2, &mut state).unwrap();

    let command = Command::PrivMsg("user2".to_string(), "Hello, user2!".to_string());
    let result = handle_command(command, 1, &mut state);
    assert!(result.is_ok());
    let messages = result.unwrap();
    assert_eq!(messages, vec![(2, ":user1 PRIVMSG user2 :Hello, user2!".to_string())]);

    let command = Command::PrivMsg("#testchannel".to_string(), "Hello, channel!".to_string());
    let result = handle_command(command, 1, &mut state);
    assert!(result.is_ok());
    let messages = result.unwrap();
    assert_eq!(messages, vec![(2, ":user1 PRIVMSG #testchannel :Hello, channel!".to_string())]);

    let command = Command::PrivMsg("user1".to_string(), "Hello, myself!".to_string());
    let result = handle_command(command, 1, &mut state);
    assert!(result.is_ok());
    let messages = result.unwrap();
    assert_eq!(messages, vec![(1, ":user1 PRIVMSG user1 :Hello, myself!".to_string())]);
}

#[test]
fn test_handle_privmsg_no_echo() {
    let mut state = ServerState::new();
    session_with_nick(&mut state, "user1");
    session_with_nick(&mut state, "user2");
    handle_command(Command::Join("#testchannel".to_string()), 1, &mut state).unwrap();
    handle_command(Command::Join("#testchannel".to_string()), 2, &mut state).unwrap();

    let command = Command::PrivMsg("#testchannel".to_string(), "Hello, channel!".to_string());
    let result = handle_command(command, 1, &mut state);
    assert!(result.is_ok());
    let messages = result.unwrap();
    assert_eq!(messages.len(), 1);
    assert_eq!(messages[0], (2, ":user1 PRIVMSG #testchannel :Hello, channel!".to_string()));
    assert!(!messages.iter().any(|(id, _)| *id == 1));

    let command = Command::PrivMsg("user2".to_string(), "Hello, user2!".to_string());
    let result = handle_command(command, 1, &mut state);
    assert!(result.is_ok());
    let messages = result.unwrap();
    assert_eq!(messages.len(), 1);
    assert_eq!(messages[0], (2, ":user1 PRIVMSG user2 :Hello, user2!".to_string()));

    let command = Command::PrivMsg("user1".to_string(), "Hello, myself!".to_string());
    let result = handle_command(command, 1, &mut state);
    assert!(result.is_ok());
    let messages = result.unwrap();
    assert_eq!(messages.len(), 1);
    assert_eq!(messages[0], (1, ":user1 PRIVMSG user1 :Hello, myself!".to_string()));
}

#[test]
fn test_handle_privmsg_fanout_exactly_once() {
    let mut state = ServerState::new();
    session_with_nick(&mut state, "a");
    session_with_nick(&mut state, "b");
    session_with_nick(&mut state, "c");
    for id in 1..=3 {
        handle_command(Command::Join("#all".to_string()), id, &mut state).unwrap();
    }

    let messages = handle_command(
        Command::PrivMsg("#all".to_string(), "hi".to_string()),
        2,
        &mut state,
    )
    .unwrap();
    assert_eq!(messages.len(), 2);
    assert_eq!(messages.iter().filter(|(id, _)| *id == 1).count(), 1);
    assert_eq!(messages.iter().filter(|(id, _)| *id == 2).count(), 0);
    assert_eq!(messages.iter().filter(|(id, _)| *id == 3).count(), 1);
    for (_, line) in &messages {
        assert_eq!(line, ":b PRIVMSG #all :hi");
    }
}

#[test]
fn test_handle_privmsg_errors() {
    let mut state = ServerState::new();
    session_with_nick(&mut state, "user1");
    session_with_nick(&mut state, "user2");
    handle_command(Command::Join("#members".to_string()), 2, &mut state).unwrap();

    let result = handle_command(
        Command::PrivMsg("ghost".to_string(), "hi".to_string()),
        1,
        &mut state,
    );
    assert_eq!(result, Err(ServerError::UserNotFound("ghost".to_string())));

    let result = handle_command(
        Command::PrivMsg("#nowhere".to_string(), "hi".to_string()),
        1,
        &mut state,
    );
    assert_eq!(result, Err(ServerError::ChannelNotFound("#nowhere".to_string())));

    let result = handle_command(
        Command::PrivMsg("#members".to_string(), "hi".to_string()),
        1,
        &mut state,
    );
    assert_eq!(result, Err(ServerError::NotOnChannel));
}

#[test]
fn test_handle_quit_command() {
    let mut state = ServerState::new();
    session_with_nick(&mut state, "testuser");
    handle_command(Command::Join("#testchannel".to_string()), 1, &mut state).unwrap();

    let command = Command::Quit(Some("Goodbye!".to_string()));
    let result = handle_command(command, 1, &mut state);
    assert!(result.is_ok());
    let messages = result.unwrap();
    assert_eq!(messages, vec![(1, ":testuser QUIT :Goodbye!".to_string())]);

    assert!(state.sessions.is_empty());
    assert!(channel_members(&state, "#testchannel").is_none());
}

#[test]
fn test_handle_quit_default_reason() {
    let mut state = ServerState::new();
    session_with_nick(&mut state, "quiet");
    let messages = handle_command(Command::Quit(None), 1, &mut state).unwrap();
    assert_eq!(messages, vec![(1, ":quiet QUIT :Client Quit".to_string())]);
}

#[test]
fn test_handle_ping_command() {
    let mut state = ServerState::new();

    let command = Command::Ping("server1".to_string());
    let result = handle_command(command, 1, &mut state);
    assert!(result.is_ok());
    let messages = result.unwrap();
    assert_eq!(messages, vec![(1, "PONG server1".to_string())]);
}

#[test]
fn test_handle_pong_command() {
    let mut state = ServerState::new();
    session_with_nick(&mut state, "alive");
    let messages = handle_command(Command::Pong("tok".to_string()), 1, &mut state).unwrap();
    assert!(messages.is_empty());

    let result = handle_command(Command::Pong("tok".to_string()), 99, &mut state);
    assert_eq!(result, Err(ServerError::SessionNotFound));
}

#[test]
fn test_handle_topic_command() {
    let mut state = ServerState::new();
    session_with_nick(&mut state, "testuser");
    handle_command(Command::Join("#testchannel".to_string()), 1, &mut state).unwrap();

    let command = Command::Topic("#testchannel".to_string(), Some("New topic".to_string()));
    let result = handle_command(command, 1, &mut state);
    assert!(result.is_ok());
    let messages = result.unwrap();
    assert_eq!(messages, vec![(1, ":testuser TOPIC #testchannel :New topic".to_string())]);

    let command = Command::Topic("#testchannel".to_string(), None);
    let result = handle_command(command, 1, &mut state);
    assert!(result.is_ok());
    let messages = result.unwrap();
    assert_eq!(messages, vec![(1, ":server 332 testuser #testchannel :New topic".to_string())]);
}

#[test]
fn test_handle_topic_query_unset() {
    let mut state = ServerState::new();
    session_with_nick(&mut state, "asker");
    handle_command(Command::Join("#bare".to_string()), 1, &mut state).unwrap();
    let messages = handle_command(Command::Topic("#bare".to_string(), None), 1, &mut state).unwrap();
    assert_eq!(messages, vec![(1, ":server 331 asker #bare :No topic is set".to_string())]);
}

#[test]
fn test_handle_names_command() {
    let mut state = ServerState::new();
    session_with_nick(&mut state, "user1");
    session_with_nick(&mut state, "user2");
    handle_command(Command::Join("#testchannel".to_string()), 1, &mut state).unwrap();
    handle_command(Command::Join("#testchannel".to_string()), 2, &mut state).unwrap();

    let command = Command::Names("#testchannel".to_string());
    let result = handle_command(command, 1, &mut state);
    assert!(result.is_ok());
    let messages = result.unwrap();
    assert_eq!(messages.len(), 2);
    assert!(messages[0].1.starts_with(":server 353 * = #testchannel :"));
    assert!(messages[0].1.contains("user1"));
    assert!(messages[0].1.contains("user2"));
    assert_eq!(messages[1], (1, ":server 366 * #testchannel :End of /NAMES list".to_string()));
}

#[test]
fn test_handle_list_command() {
    let mut state = ServerState::new();
    session_with_nick(&mut state, "first");
    session_with_nick(&mut state, "second");
    handle_command(Command::Join("#channel1".to_string()), 1, &mut state).unwrap();
    handle_command(Command::Join("#channel2".to_string()), 1, &mut state).unwrap();
    handle_command(Command::Join("#channel2".to_string()), 2, &mut state).unwrap();
    handle_command(
        Command::Topic("#channel1".to_string(), Some("Topic 1".to_string())),
        1,
        &mut state,
    )
    .unwrap();
    handle_command(
        Command::Topic("#channel2".to_string(), Some("Topic 2".to_string())),
        1,
        &mut state,
    )
    .unwrap();

    let command = Command::List(None);
    let result = handle_command(command, 1, &mut state);
    assert!(result.is_ok());
    let messages = result.unwrap();
    assert_eq!(messages, vec![
        (1, ":server 321 Channel :Users Name".to_string()),
        (1, ":server 322 #channel1 1 :Topic 1".to_string()),
        (1, ":server 322 #channel2 2 :Topic 2".to_string()),
        (1, ":server 323 :End of /LIST".to_string()),
    ]);

    let command = Command::List(Some("#channel1".to_string()));
    let result = handle_command(command, 1, &mut state);
    assert!(result.is_ok());
    let messages = result.unwrap();
    assert_eq!(messages, vec![
        (1, ":server 321 Channel :Users Name".to_string()),
        (1, ":server 322 #channel1 1 :Topic 1".to_string()),
        (1, ":server 323 :End of /LIST".to_string()),
    ]);
}

#[test]
fn test_handle_list_sorted_regardless_of_join_order() {
    let mut state = ServerState::new();
    session_with_nick(&mut state, "zoe");
    handle_command(Command::Join("#zulu".to_string()), 1, &mut state).unwrap();
    handle_command(Command::Join("#alpha".to_string()), 1, &mut state).unwrap();
    handle_command(Command::Join("#mike".to_string()), 1, &mut state).unwrap();

    let messages = handle_command(Command::List(None), 1, &mut state).unwrap();
    assert_eq!(messages, vec![
        (1, ":server 321 Channel :Users Name".to_string()),
        (1, ":server 322 #alpha 1 :".to_string()),
        (1, ":server 322 #mike 1 :".to_string()),
        (1, ":server 322 #zulu 1 :".to_string()),
        (1, ":server 323 :End of /LIST".to_string()),
    ]);
}

#[test]
fn test_concurrent_joins_yield_all_members() {
    let mut state = ServerState::new();
    let n = 5;
    for i in 0..n {
        session_with_nick(&mut state, &format!("user{}", i));
    }
    for id in 1..=n {
        handle_command(Command::Join("#burst".to_string()), id, &mut state).unwrap();
    }
    let members = channel_members(&state, "#burst").unwrap();
    assert_eq!(members.len(), n);
    for id in 1..=n {
        assert!(members.contains(&id));
    }
}

#[test]
fn test_handle_cap_command() {
    let mut state = ServerState::new();
    let messages =
        handle_command(Command::Cap("LS".to_string(), None), 1, &mut state).unwrap();
    assert_eq!(messages, vec![(1, "CAP * LS :".to_string())]);
    let messages =
        handle_command(Command::Cap("REQ".to_string(), Some("sasl".to_string())), 1, &mut state)
            .unwrap();
    assert_eq!(messages, vec![(1, "CAP * ACK :".to_string())]);
    let messages = handle_command(Command::Cap("END".to_string(), None), 1, &mut state).unwrap();
    assert!(messages.is_empty());
    let result = handle_command(Command::Cap("BOGUS".to_string(), None), 1, &mut state);
    assert_eq!(result, Err(ServerError::UnknownCapSubcommand("BOGUS".to_string())));
}

#[test]
fn test_handle_not_implemented() {
    let mut state = ServerState::new();
    session_with_nick(&mut state, "user1");
    let result = handle_command(
        Command::Mode("#x".to_string(), "+o".to_string(), None),
        1,
        &mut state,
    );
    assert_eq!(result, Err(ServerError::NotImplemented("MODE".to_string())));
    assert_eq!(
        result.unwrap_err().message(),
        "MODE command not implemented yet"
    );

    let result = handle_command(Command::WhoisUser("user1".to_string()), 1, &mut state);
    assert_eq!(result, Err(ServerError::NotImplemented("WHOIS".to_string())));
}

#[test]
fn test_handle_command_unknown_session() {
    let mut state = ServerState::new();
    let result = handle_command(Command::Nick("ghost".to_string()), 42, &mut state);
    assert_eq!(result, Err(ServerError::SessionNotFound));
    let result = handle_command(Command::Join("#x".to_string()), 42, &mut state);
    assert_eq!(result, Err(ServerError::SessionNotFound));
}

#[test]
fn test_remove_session_teardown() {
    let mut state = ServerState::new();
    session_with_nick(&mut state, "a");
    session_with_nick(&mut state, "b");
    handle_command(Command::Join("#shared".to_string()), 1, &mut state).unwrap();
    handle_command(Command::Join("#shared".to_string()), 2, &mut state).unwrap();
    handle_command(Command::Join("#own".to_string()), 1, &mut state).unwrap();

    rustirc2::handler::remove_session(&mut state, 1);
    assert_eq!(state.sessions.len(), 1);
    assert_eq!(channel_members(&state, "#shared").unwrap(), vec![2]);
    assert!(channel_members(&state, "#own").is_none());

    rustirc2::handler::remove_session(&mut state, 1);
    assert_eq!(state.sessions.len(), 1);
}

#[test]
fn test_duplicate_nicknames_resolve_to_first_session() {
    let mut state = ServerState::new();
    session_with_nick(&mut state, "dup");
    session_with_nick(&mut state, "dup");
    session_with_nick(&mut state, "sender");

    let messages = handle_command(
        Command::PrivMsg("dup".to_string(), "hi".to_string()),
        3,
        &mut state,
    )
    .unwrap();
    assert_eq!(messages, vec![(1, ":sender PRIVMSG dup :hi".to_string())]);
}
