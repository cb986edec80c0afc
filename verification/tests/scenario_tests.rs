use rustirc2::handler::process_line;
use rustirc2::state::ServerState;

#[test]
fn test_registration_and_channel_scenario() {
    let mut state = ServerState::new();
    let a = state.create_session("127.0.0.1".to_string());

    let replies = process_line("NICK alice", a, &mut state);
    assert_eq!(replies, vec![(a, ":<unknown> NICK :alice".to_string())]);

    let replies = process_line("USER alice 0 * :Alice", a, &mut state);
    assert_eq!(replies.len(), 6);
    assert_eq!(replies[0], (a, "001 alice :Welcome to the IRC server!".to_string()));
    assert_eq!(
        replies[5],
        (a, "251 alice :There are 1 users and 0 services on 1 server".to_string())
    );

    let replies = process_line("JOIN #test", a, &mut state);
    assert_eq!(replies, vec![
        (a, ":alice JOIN :#test".to_string()),
        (a, ":server 353 alice = #test :alice".to_string()),
        (a, ":server 366 alice #test :End of /NAMES list".to_string()),
    ]);

    let b = state.create_session("127.0.0.1".to_string());
    process_line("NICK bob", b, &mut state);
    let replies = process_line("USER bob 0 * :Bob", b, &mut state);
    assert_eq!(
        replies[5],
        (b, "251 bob :There are 2 users and 0 services on 1 server".to_string())
    );
    process_line("JOIN #test", b, &mut state);

    let replies = process_line("PRIVMSG #test :hi", a, &mut state);
    assert_eq!(replies, vec![(b, ":alice PRIVMSG #test :hi".to_string())]);
    assert!(!replies.iter().any(|(to, _)| *to == a));
}

#[test]
fn test_quit_line_end_to_end() {
    let mut state = ServerState::new();
    let a = state.create_session("127.0.0.1".to_string());
    process_line("NICK alice", a, &mut state);
    let replies = process_line("QUIT :Goodbye!", a, &mut state);
    assert_eq!(replies, vec![(a, ":alice QUIT :Goodbye!".to_string())]);
    assert!(state.sessions.is_empty());
}

#[test]
fn test_unparseable_line_is_dropped() {
    let mut state = ServerState::new();
    let a = state.create_session("127.0.0.1".to_string());
    let replies = process_line("NOSUCHVERB #x", a, &mut state);
    assert!(replies.is_empty());
    assert_eq!(state.sessions.len(), 1);
}

#[test]
fn test_error_rendered_to_offender_only() {
    let mut state = ServerState::new();
    let a = state.create_session("127.0.0.1".to_string());
    process_line("NICK alice", a, &mut state);

    let replies = process_line("PART #nowhere", a, &mut state);
    assert_eq!(replies, vec![(a, "ERROR :Channel #nowhere not found".to_string())]);

    let replies = process_line("PRIVMSG ghost :hi", a, &mut state);
    assert_eq!(replies, vec![(a, "ERROR :User ghost not found".to_string())]);

    let replies = process_line("MODE #x +o", a, &mut state);
    assert_eq!(replies, vec![(a, "ERROR :MODE command not implemented yet".to_string())]);

    let replies = process_line("NICK bad nick", a, &mut state);
    assert_eq!(replies, vec![(a, "ERROR :Invalid nickname".to_string())]);

    let replies = process_line("CAP WHAT", a, &mut state);
    assert_eq!(replies, vec![(a, "ERROR :Unknown CAP subcommand: WHAT".to_string())]);

    let replies = process_line("PONG x", 99, &mut state);
    assert_eq!(replies, vec![(99, "ERROR :User not found".to_string())]);
}

#[test]
fn test_numeric_id_fallback_nick() {
    let mut state = ServerState::new();
    let a = state.create_session("127.0.0.1".to_string());
    let replies = process_line("JOIN #anon", a, &mut state);
    assert_eq!(replies, vec![
        (a, ":1 JOIN :#anon".to_string()),
        (a, ":server 353 1 = #anon :1".to_string()),
        (a, ":server 366 1 #anon :End of /NAMES list".to_string()),
    ]);
}
