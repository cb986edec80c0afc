//! The command parser: one protocol line (terminator already stripped) to a
//! typed command, or nothing for lines the server silently drops.
use vstd::prelude::*;
use vstd::string::StrSliceExecFns;

use crate::strings::spec_find;
use crate::strings::spec_trim;

verus! {

/// A parsed protocol command, one case per verb.
#[derive(Debug, PartialEq)]
pub enum Command {
    Nick(String),
    User(String, String, String),
    Join(String),
    Part(String),
    PrivMsg(String, String),
    Quit(Option<String>),
    Ping(String),
    Pong(String),
    Mode(String, String, Option<String>),
    Topic(String, Option<String>),
    Names(String),
    List(Option<String>),
    Invite(String, String),
    Kick(String, String, Option<String>),
    Who(String),
    WhoisUser(String),
    WhoisServer(String),
    WhoisOperator(String),
    WhoisIdle(String),
    WhoisChannels(String),
    WhoisAuth(String),
    Whowas(String, Option<String>, Option<String>),
    Cap(String, Option<String>),
}

/// Mathematical model of a [`Command`].
pub enum CommandM {
    Nick(Seq<char>),
    User(Seq<char>, Seq<char>, Seq<char>),
    Join(Seq<char>),
    Part(Seq<char>),
    PrivMsg(Seq<char>, Seq<char>),
    Quit(Option<Seq<char>>),
    Ping(Seq<char>),
    Pong(Seq<char>),
    Mode(Seq<char>, Seq<char>, Option<Seq<char>>),
    Topic(Seq<char>, Option<Seq<char>>),
    Names(Seq<char>),
    List(Option<Seq<char>>),
    Invite(Seq<char>, Seq<char>),
    Kick(Seq<char>, Seq<char>, Option<Seq<char>>),
    Who(Seq<char>),
    WhoisUser(Seq<char>),
    WhoisServer(Seq<char>),
    WhoisOperator(Seq<char>),
    WhoisIdle(Seq<char>),
    WhoisChannels(Seq<char>),
    WhoisAuth(Seq<char>),
    Whowas(Seq<char>, Option<Seq<char>>, Option<Seq<char>>),
    Cap(Seq<char>, Option<Seq<char>>),
}

impl View for Command {
    type V = CommandM;

    open spec fn view(&self) -> CommandM {
        match self {
            Command::Nick(a) => CommandM::Nick(a@),
            Command::User(a, b, c) => CommandM::User(a@, b@, c@),
            Command::Join(a) => CommandM::Join(a@),
            Command::Part(a) => CommandM::Part(a@),
            Command::PrivMsg(a, b) => CommandM::PrivMsg(a@, b@),
            Command::Quit(a) => CommandM::Quit(a.deep_view()),
            Command::Ping(a) => CommandM::Ping(a@),
            Command::Pong(a) => CommandM::Pong(a@),
            Command::Mode(a, b, c) => CommandM::Mode(a@, b@, c.deep_view()),
            Command::Topic(a, b) => CommandM::Topic(a@, b.deep_view()),
            Command::Names(a) => CommandM::Names(a@),
            Command::List(a) => CommandM::List(a.deep_view()),
            Command::Invite(a, b) => CommandM::Invite(a@, b@),
            Command::Kick(a, b, c) => CommandM::Kick(a@, b@, c.deep_view()),
            Command::Who(a) => CommandM::Who(a@),
            Command::WhoisUser(a) => CommandM::WhoisUser(a@),
            Command::WhoisServer(a) => CommandM::WhoisServer(a@),
            Command::WhoisOperator(a) => CommandM::WhoisOperator(a@),
            Command::WhoisIdle(a) => CommandM::WhoisIdle(a@),
            Command::WhoisChannels(a) => CommandM::WhoisChannels(a@),
            Command::WhoisAuth(a) => CommandM::WhoisAuth(a@),
            Command::Whowas(a, b, c) => CommandM::Whowas(a@, b.deep_view(), c.deep_view()),
            Command::Cap(a, b) => CommandM::Cap(a@, b.deep_view()),
        }
    }
}

/// The character with `c`'s lower-case letter folded to upper case; other
/// characters are unchanged.
pub open spec fn ascii_upper(c: char) -> char {
    if 97 <= (c as u32) <= 122 {
        ((c as u32) - 32) as char
    } else {
        c
    }
}

/// `s` with ASCII lower-case letters folded to upper case.
pub open spec fn upper_seq(s: Seq<char>) -> Seq<char> {
    Seq::new(s.len(), |i: int| ascii_upper(s[i]))
}

/// Splits at the first space: the head before it and the remainder after it,
/// or the whole sequence if there is none.
pub open spec fn split_first_space(s: Seq<char>) -> (Seq<char>, Option<Seq<char>>) {
    match spec_find(s, ' ') {
        Some(i) => (s.take(i), Some(s.skip(i + 1))),
        None => (s, None),
    }
}

/// The verb and the parameter text of a line: the first space separates
/// them; a line without a space is all verb with empty parameters.
pub open spec fn verb_of(s: Seq<char>) -> Seq<char> {
    split_first_space(s).0
}

pub open spec fn params_of(s: Seq<char>) -> Seq<char> {
    match split_first_space(s).1 {
        Some(p) => p,
        None => Seq::empty(),
    }
}

/// `USER <user> <mode> <unused> :<realname>`: exactly three tokens, then a
/// trailing field introduced by a colon.
pub open spec fn spec_parse_user(params: Seq<char>) -> Option<CommandM> {
    let (user, r1) = split_first_space(params);
    match r1 {
        None => None,
        Some(r1) => {
            let (mode, r2) = split_first_space(r1);
            match r2 {
                None => None,
                Some(r2) => {
                    let (unused, r3) = split_first_space(r2);
                    match r3 {
                        None => None,
                        Some(r3) => if r3.len() >= 1 && r3[0] == ':' {
                            Some(CommandM::User(user, mode, r3.drop_first()))
                        } else {
                            None
                        },
                    }
                },
            }
        },
    }
}

/// `QUIT [:<msg>]`: an optional trailing message; a leading colon
/// introduces it and is not part of it.
pub open spec fn spec_quit_message(params: Seq<char>) -> Option<Seq<char>> {
    if params.len() == 0 {
        None
    } else if params[0] == ':' {
        Some(params.drop_first())
    } else {
        Some(params)
    }
}

/// `PRIVMSG <target> :<text>`: the first colon separates the trimmed target
/// from the text; a line without a colon is dropped.
pub open spec fn spec_parse_privmsg(params: Seq<char>) -> Option<CommandM> {
    match spec_find(params, ':') {
        None => None,
        Some(i) => Some(CommandM::PrivMsg(spec_trim(params.take(i)), params.skip(i + 1))),
    }
}

/// `TOPIC <channel> [:<text>]`: without a colon the command queries the
/// topic; with one it sets the text after the colon.
pub open spec fn spec_parse_topic(params: Seq<char>) -> Option<CommandM> {
    match spec_find(params, ':') {
        None => Some(CommandM::Topic(spec_trim(params), None)),
        Some(i) => Some(CommandM::Topic(spec_trim(params.take(i)), Some(params.skip(i + 1)))),
    }
}

/// `MODE <target> <modes> [<arg>]`: two tokens required, the rest optional.
pub open spec fn spec_parse_mode(params: Seq<char>) -> Option<CommandM> {
    let (t1, r1) = split_first_space(params);
    match r1 {
        None => None,
        Some(r1) => {
            let (t2, r2) = split_first_space(r1);
            Some(CommandM::Mode(t1, t2, r2))
        },
    }
}

/// `INVITE <nick> <channel>`: two fields, split at the first space.
pub open spec fn spec_parse_invite(params: Seq<char>) -> Option<CommandM> {
    let (t1, r1) = split_first_space(params);
    match r1 {
        None => None,
        Some(r1) => Some(CommandM::Invite(t1, r1)),
    }
}

/// `KICK <channel> <nick> [<reason>]`: two tokens required, the rest
/// optional.
pub open spec fn spec_parse_kick(params: Seq<char>) -> Option<CommandM> {
    let (t1, r1) = split_first_space(params);
    match r1 {
        None => None,
        Some(r1) => {
            let (t2, r2) = split_first_space(r1);
            Some(CommandM::Kick(t1, t2, r2))
        },
    }
}

/// `WHOWAS <nick> [<count> [<server>]]`: one token required, two optional.
pub open spec fn spec_parse_whowas(params: Seq<char>) -> Option<CommandM> {
    let (t1, r1) = split_first_space(params);
    match r1 {
        None => Some(CommandM::Whowas(t1, None, None)),
        Some(r1) => {
            let (t2, r2) = split_first_space(r1);
            Some(CommandM::Whowas(t1, Some(t2), r2))
        },
    }
}

/// `CAP <subcommand> [<param>]`.
pub open spec fn spec_parse_cap(params: Seq<char>) -> Option<CommandM> {
    let (t1, r1) = split_first_space(params);
    Some(CommandM::Cap(t1, r1))
}

/// What one protocol line parses to: the verb, matched without regard to
/// ASCII case, selects the form of the parameters; anything else is dropped.
pub open spec fn spec_parse(s: Seq<char>) -> Option<CommandM> {
    let verb = upper_seq(verb_of(s));
    let params = params_of(s);
    if verb == "NICK"@ {
        Some(CommandM::Nick(spec_trim(params)))
    } else if verb == "USER"@ {
        spec_parse_user(params)
    } else if verb == "JOIN"@ {
        Some(CommandM::Join(params))
    } else if verb == "PART"@ {
        Some(CommandM::Part(params))
    } else if verb == "PRIVMSG"@ {
        spec_parse_privmsg(params)
    } else if verb == "QUIT"@ {
        Some(CommandM::Quit(spec_quit_message(params)))
    } else if verb == "PING"@ {
        Some(CommandM::Ping(params))
    } else if verb == "PONG"@ {
        Some(CommandM::Pong(params))
    } else if verb == "MODE"@ {
        spec_parse_mode(params)
    } else if verb == "TOPIC"@ {
        spec_parse_topic(params)
    } else if verb == "NAMES"@ {
        Some(CommandM::Names(params))
    } else if verb == "LIST"@ {
        Some(CommandM::List(if params.len() == 0 { None } else { Some(params) }))
    } else if verb == "INVITE"@ {
        spec_parse_invite(params)
    } else if verb == "KICK"@ {
        spec_parse_kick(params)
    } else if verb == "WHO"@ {
        Some(CommandM::Who(params))
    } else if verb == "WHOIS"@ {
        Some(CommandM::WhoisUser(params))
    } else if verb == "WHOWAS"@ {
        spec_parse_whowas(params)
    } else if verb == "CAP"@ {
        spec_parse_cap(params)
    } else {
        None
    }
}

/// Decides `upper_seq(verb@) == keyword@` for an upper-case keyword, by
/// comparing characters with the one possible case difference.
fn verb_eq(verb: &str, keyword: &str) -> (r: bool)
    requires
        forall|i: int| 0 <= i < keyword@.len() ==> 65 <= (#[trigger] keyword@[i] as u32) <= 90,
    ensures
        r == (upper_seq(verb@) == keyword@),
{
    let vlen = verb.unicode_len();
    let klen = keyword.unicode_len();
    if vlen != klen {
        proof {
            assert(upper_seq(verb@).len() == verb@.len());
        }
        return false;
    }
    let mut i: usize = 0;
    while i < vlen
        invariant
            vlen == verb@.len(),
            klen == keyword@.len(),
            vlen == klen,
            i <= vlen,
            forall|i0: int| 0 <= i0 < keyword@.len() ==> 65 <= (#[trigger] keyword@[i0] as u32)
                <= 90,
            forall|j: int| 0 <= j < i ==> ascii_upper(verb@[j]) == keyword@[j],
        decreases vlen - i,
    {
        let cv = verb.get_char(i);
        let ck = keyword.get_char(i);
        let matches_char = cv == ck || (cv as u32) == (ck as u32) + 32;
        proof {
            assert(65 <= (ck as u32) <= 90);
            if (cv as u32) == (ck as u32) + 32 {
                crate::strings::lemma_char_cast_injective(
                    ascii_upper(cv),
                    ck,
                );
            }
        }
        if !matches_char {
            proof {
                assert(ascii_upper(verb@[i as int]) != keyword@[i as int]);
                assert(upper_seq(verb@)[i as int] != keyword@[i as int]);
            }
            return false;
        }
        i = i + 1;
    }
    proof {
        assert(upper_seq(verb@) =~= keyword@);
    }
    true
}

/// Splits at the first space, returning the head and the remainder if a
/// space exists.
fn split_space<'a>(s: &'a str) -> (r: (&'a str, Option<&'a str>))
    ensures
        r.0@ == split_first_space(s@).0,
        match (r.1, split_first_space(s@).1) {
            (Some(a), Some(b)) => a@ == b,
            (None, None) => true,
            _ => false,
        },
{
    let len = s.unicode_len();
    match crate::strings::find_char(s, ' ') {
        Some(i) => {
            proof {
                crate::strings::lemma_spec_find(s@, ' ');
            }
            let head = s.substring_char(0, i);
            let rest = s.substring_char(i + 1, len);
            proof {
                assert(head@ =~= s@.take(i as int));
                assert(rest@ =~= s@.skip(i as int + 1));
            }
            (head, Some(rest))
        },
        None => (s, None),
    }
}

/// Splits at the first colon, if any, in the same way.
fn split_colon<'a>(s: &'a str) -> (r: Option<(&'a str, &'a str)>)
    ensures
        match (r, spec_find(s@, ':')) {
            (Some((a, b)), Some(i)) => a@ == s@.take(i) && b@ == s@.skip(i + 1),
            (None, None) => true,
            _ => false,
        },
{
    let len = s.unicode_len();
    match crate::strings::find_char(s, ':') {
        Some(i) => {
            proof {
                crate::strings::lemma_spec_find(s@, ':');
            }
            let head = s.substring_char(0, i);
            let rest = s.substring_char(i + 1, len);
            proof {
                assert(head@ =~= s@.take(i as int));
                assert(rest@ =~= s@.skip(i as int + 1));
            }
            Some((head, rest))
        },
        None => None,
    }
}

/// Parses one line into a command, or nothing for a line the server drops:
/// an unknown verb, or a malformed required field.
pub fn parse_command(input: &str) -> (r: Option<Command>)
    ensures
        match r {
            Some(c) => spec_parse(input@) == Some(c@),
            None => spec_parse(input@) is None,
        },
{
    let (verb, params_opt) = split_space(input);
    let params = match params_opt {
        Some(p) => p,
        None => "",
    };
    proof {
        reveal_strlit("");
        reveal_strlit("NICK");
        reveal_strlit("USER");
        reveal_strlit("JOIN");
        reveal_strlit("PART");
        reveal_strlit("PRIVMSG");
        reveal_strlit("QUIT");
        reveal_strlit("PING");
        reveal_strlit("PONG");
        reveal_strlit("MODE");
        reveal_strlit("TOPIC");
        reveal_strlit("NAMES");
        reveal_strlit("LIST");
        reveal_strlit("INVITE");
        reveal_strlit("KICK");
        reveal_strlit("WHO");
        reveal_strlit("WHOIS");
        reveal_strlit("WHOWAS");
        reveal_strlit("CAP");
        assert(""@ =~= Seq::<char>::empty());
        assert(verb@ == verb_of(input@));
        assert(params@ == params_of(input@));
    }
    if verb_eq(verb, "NICK") {
        let t = crate::strings::trim(params);
        Some(Command::Nick(String::from_str(t)))
    } else if verb_eq(verb, "USER") {
        parse_user(params)
    } else if verb_eq(verb, "JOIN") {
        Some(Command::Join(String::from_str(params)))
    } else if verb_eq(verb, "PART") {
        Some(Command::Part(String::from_str(params)))
    } else if verb_eq(verb, "PRIVMSG") {
        match split_colon(params) {
            Some((target, text)) => {
                let t = crate::strings::trim(target);
                Some(Command::PrivMsg(String::from_str(t), String::from_str(text)))
            },
            None => None,
        }
    } else if verb_eq(verb, "QUIT") {
        if params.is_empty() {
            Some(Command::Quit(None))
        } else if params.get_char(0) == ':' {
            let len = params.unicode_len();
            let message = params.substring_char(1, len);
            proof {
                assert(message@ =~= params@.drop_first());
            }
            Some(Command::Quit(Some(String::from_str(message))))
        } else {
            Some(Command::Quit(Some(String::from_str(params))))
        }
    } else if verb_eq(verb, "PING") {
        Some(Command::Ping(String::from_str(params)))
    } else if verb_eq(verb, "PONG") {
        Some(Command::Pong(String::from_str(params)))
    } else if verb_eq(verb, "MODE") {
        let (t1, r1) = split_space(params);
        match r1 {
            None => None,
            Some(r1) => {
                let (t2, r2) = split_space(r1);
                let arg = match r2 {
                    Some(a) => Some(String::from_str(a)),
                    None => None,
                };
                Some(Command::Mode(String::from_str(t1), String::from_str(t2), arg))
            },
        }
    } else if verb_eq(verb, "TOPIC") {
        match split_colon(params) {
            Some((chan, text)) => {
                let t = crate::strings::trim(chan);
                Some(Command::Topic(String::from_str(t), Some(String::from_str(text))))
            },
            None => {
                let t = crate::strings::trim(params);
                Some(Command::Topic(String::from_str(t), None))
            },
        }
    } else if verb_eq(verb, "NAMES") {
        Some(Command::Names(String::from_str(params)))
    } else if verb_eq(verb, "LIST") {
        if params.is_empty() {
            Some(Command::List(None))
        } else {
            Some(Command::List(Some(String::from_str(params))))
        }
    } else if verb_eq(verb, "INVITE") {
        let (t1, r1) = split_space(params);
        match r1 {
            None => None,
            Some(r1) => Some(Command::Invite(String::from_str(t1), String::from_str(r1))),
        }
    } else if verb_eq(verb, "KICK") {
        let (t1, r1) = split_space(params);
        match r1 {
            None => None,
            Some(r1) => {
                let (t2, r2) = split_space(r1);
                let reason = match r2 {
                    Some(a) => Some(String::from_str(a)),
                    None => None,
                };
                Some(Command::Kick(String::from_str(t1), String::from_str(t2), reason))
            },
        }
    } else if verb_eq(verb, "WHO") {
        Some(Command::Who(String::from_str(params)))
    } else if verb_eq(verb, "WHOIS") {
        Some(Command::WhoisUser(String::from_str(params)))
    } else if verb_eq(verb, "WHOWAS") {
        let (t1, r1) = split_space(params);
        match r1 {
            None => Some(Command::Whowas(String::from_str(t1), None, None)),
            Some(r1) => {
                let (t2, r2) = split_space(r1);
                let srv = match r2 {
                    Some(a) => Some(String::from_str(a)),
                    None => None,
                };
                Some(Command::Whowas(String::from_str(t1), Some(String::from_str(t2)), srv))
            },
        }
    } else if verb_eq(verb, "CAP") {
        let (t1, r1) = split_space(params);
        let param = match r1 {
            Some(a) => Some(String::from_str(a)),
            None => None,
        };
        Some(Command::Cap(String::from_str(t1), param))
    } else {
        None
    }
}

/// Parses the parameters of `USER`.
fn parse_user(params: &str) -> (r: Option<Command>)
    ensures
        match r {
            Some(c) => spec_parse_user(params@) == Some(c@),
            None => spec_parse_user(params@) is None,
        },
{
    let (user, r1) = split_space(params);
    match r1 {
        None => None,
        Some(r1) => {
            let (mode, r2) = split_space(r1);
            match r2 {
                None => None,
                Some(r2) => {
                    let (_unused, r3) = split_space(r2);
                    match r3 {
                        None => None,
                        Some(r3) => {
                            if !r3.is_empty() && r3.get_char(0) == ':' {
                                let len = r3.unicode_len();
                                let realname = r3.substring_char(1, len);
                                proof {
                                    assert(realname@ =~= r3@.drop_first());
                                }
                                Some(Command::User(
                                    String::from_str(user),
                                    String::from_str(mode),
                                    String::from_str(realname),
                                ))
                            } else {
                                None
                            }
                        },
                    }
                },
            }
        },
    }
}

} // verus!
