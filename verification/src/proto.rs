//! The protocol core, as mathematics: the error taxonomy, and for every verb
//! the transition it makes on the registries together with the addressed
//! lines it sends. The executable processor in `handler` is proved to return
//! exactly what these functions say.
use vstd::prelude::*;

use crate::channel::ChannelM;
use crate::parser::CommandM;
use crate::render::line_cap_ack;
use crate::render::line_cap_ls;
use crate::render::line_join;
use crate::render::line_list_end;
use crate::render::line_list_head;
use crate::render::line_list_row;
use crate::render::line_names;
use crate::render::line_names_end;
use crate::render::line_nick;
use crate::render::line_options;
use crate::render::line_part;
use crate::render::line_pong;
use crate::render::line_privmsg;
use crate::render::line_quit;
use crate::render::line_server_info;
use crate::render::line_topic_is;
use crate::render::line_topic_none;
use crate::render::line_topic_set;
use crate::render::line_user_count;
use crate::render::line_welcome;
use crate::render::line_your_host;
use crate::render::line_created;
use crate::state::StateM;
use crate::state::chan_idx;
use crate::state::nick_idx;
use crate::state::sess_idx;
use crate::strings::lex_lt;
use crate::strings::spec_decimal;
use crate::user::UserM;
use crate::user::nick_ok;

verus! {

/// Why a command was refused.
pub enum ErrM {
    SessionNotFound,
    ChannelNotFound(Seq<char>),
    UserNotFound(Seq<char>),
    NotOnChannel,
    InvalidNickname,
    UnknownCapSubcommand(Seq<char>),
    NotImplemented(Seq<char>),
}

/// The message the transport renders for each error.
pub open spec fn err_message(e: ErrM) -> Seq<char> {
    match e {
        ErrM::SessionNotFound => "User not found"@,
        ErrM::ChannelNotFound(c) => "Channel "@ + c + " not found"@,
        ErrM::UserNotFound(u) => "User "@ + u + " not found"@,
        ErrM::NotOnChannel => "You're not on that channel"@,
        ErrM::InvalidNickname => "Invalid nickname"@,
        ErrM::UnknownCapSubcommand(s) => "Unknown CAP subcommand: "@ + s,
        ErrM::NotImplemented(v) => v + " command not implemented yet"@,
    }
}

/// How a session is shown: its nickname, or its id in decimal while none is
/// set.
pub open spec fn display_nick(u: UserM) -> Seq<char> {
    match u.nickname {
        Some(n) => n,
        None => spec_decimal(u.id as nat),
    }
}

/// The shown name of a channel member: the session's nickname, or the id in
/// decimal.
pub open spec fn member_nick(sessions: Seq<UserM>, id: usize) -> Seq<char> {
    match sess_idx(sessions, id) {
        Some(i) => display_nick(sessions[i]),
        None => spec_decimal(id as nat),
    }
}

pub open spec fn topic_or_empty(t: Option<Seq<char>>) -> Seq<char> {
    match t {
        Some(x) => x,
        None => Seq::empty(),
    }
}

/// The member nicks of a channel, space-separated, in membership order.
pub open spec fn nicks_list(sessions: Seq<UserM>, members: Seq<usize>) -> Seq<char>
    decreases members.len(),
{
    if members.len() == 0 {
        Seq::empty()
    } else if members.len() == 1 {
        member_nick(sessions, members[0])
    } else {
        nicks_list(sessions, members.drop_last()) + " "@ + member_nick(sessions, members.last())
    }
}

/// One copy of `line` to every member but the sender, in membership order.
pub open spec fn fanout(members: Seq<usize>, sender: usize, line: Seq<char>) -> Seq<
    (usize, Seq<char>),
>
    decreases members.len(),
{
    if members.len() == 0 {
        Seq::empty()
    } else {
        fanout(members.drop_last(), sender, line) + if members.last() == sender {
            Seq::empty()
        } else {
            seq![(members.last(), line)]
        }
    }
}

/// The personalized name-list pair every other member receives after a join.
pub open spec fn join_notices(
    sessions: Seq<UserM>,
    members: Seq<usize>,
    chan: Seq<char>,
    list: Seq<char>,
    self_id: usize,
) -> Seq<(usize, Seq<char>)>
    decreases members.len(),
{
    if members.len() == 0 {
        Seq::empty()
    } else {
        join_notices(sessions, members.drop_last(), chan, list, self_id) + {
            let m = members.last();
            if m == self_id {
                Seq::empty()
            } else {
                match sess_idx(sessions, m) {
                    Some(si) => seq![
                        (m, line_names(display_nick(sessions[si]), chan, list)),
                        (m, line_names_end(display_nick(sessions[si]), chan)),
                    ],
                    None => Seq::empty(),
                }
            }
        }
    }
}

/// One 322 row per channel, in registry order, addressed to `to`.
pub open spec fn list_rows(channels: Seq<ChannelM>, to: usize) -> Seq<(usize, Seq<char>)>
    decreases channels.len(),
{
    if channels.len() == 0 {
        Seq::empty()
    } else {
        list_rows(channels.drop_last(), to) + seq![
            (
                to,
                line_list_row(
                    channels.last().name,
                    channels.last().members.len(),
                    topic_or_empty(channels.last().topic),
                ),
            ),
        ]
    }
}

/// Where a new channel name goes in the sorted registry: before the first
/// name it precedes.
pub open spec fn insert_pos(channels: Seq<ChannelM>, name: Seq<char>) -> int
    decreases channels.len(),
{
    if channels.len() == 0 {
        0
    } else if lex_lt(name, channels[0].name) {
        0
    } else {
        1 + insert_pos(channels.drop_first(), name)
    }
}

pub proof fn lemma_insert_pos(channels: Seq<ChannelM>, name: Seq<char>)
    ensures
        0 <= insert_pos(channels, name) <= channels.len(),
        forall|j: int|
            0 <= j < insert_pos(channels, name) ==> !lex_lt(name, (#[trigger] channels[j]).name),
        insert_pos(channels, name) < channels.len() ==> lex_lt(
            name,
            channels[insert_pos(channels, name)].name,
        ),
    decreases channels.len(),
{
    if channels.len() > 0 && !lex_lt(name, channels[0].name) {
        lemma_insert_pos(channels.drop_first(), name);
        assert(forall|j: int|
            1 <= j < channels.len() ==> #[trigger] channels[j] == channels.drop_first()[j - 1]);
    }
}

/// Every channel after the removal of one member, dropping any channel
/// thereby emptied.
pub open spec fn channels_without(channels: Seq<ChannelM>, id: usize) -> Seq<ChannelM>
    decreases channels.len(),
{
    if channels.len() == 0 {
        Seq::empty()
    } else {
        channels_without(channels.drop_last(), id) + {
            let c = channels.last();
            let left = ChannelM { members: c.members.remove_value(id), ..c };
            if left.members.len() == 0 {
                Seq::empty()
            } else {
                seq![left]
            }
        }
    }
}

/// The state after a session is torn down: it leaves the registry and every
/// channel, and emptied channels are deleted.
pub open spec fn spec_remove_session(s: StateM, id: usize) -> StateM {
    match sess_idx(s.sessions, id) {
        None => s,
        Some(si) => StateM {
            sessions: s.sessions.remove(si),
            channels: channels_without(s.channels, id),
            ..s
        },
    }
}

pub open spec fn upd_session(s: StateM, si: int, u: UserM) -> StateM {
    StateM { sessions: s.sessions.update(si, u), ..s }
}

/// NICK: sets the nickname if valid and echoes the change, showing
/// `<unknown>` for a session that had none.
pub open spec fn spec_nick(s: StateM, id: usize, nick: Seq<char>) -> Result<
    (StateM, Seq<(usize, Seq<char>)>),
    ErrM,
> {
    match sess_idx(s.sessions, id) {
        None => Err(ErrM::SessionNotFound),
        Some(si) => {
            let u = s.sessions[si];
            if !nick_ok(nick) {
                Err(ErrM::InvalidNickname)
            } else {
                let old_nick = match u.nickname {
                    Some(n) => n,
                    None => "<unknown>"@,
                };
                Ok(
                    (
                        upd_session(s, si, UserM { nickname: Some(nick), ..u }),
                        seq![(id, line_nick(old_nick, nick))],
                    ),
                )
            }
        },
    }
}

/// USER: records username and realname and sends the six-line registration
/// burst, the count line reflecting the current registry size.
pub open spec fn spec_user(
    s: StateM,
    id: usize,
    username: Seq<char>,
    realname: Seq<char>,
) -> Result<(StateM, Seq<(usize, Seq<char>)>), ErrM> {
    match sess_idx(s.sessions, id) {
        None => Err(ErrM::SessionNotFound),
        Some(si) => {
            let u = s.sessions[si];
            let nick = match u.nickname {
                Some(n) => n,
                None => "User"@ + spec_decimal(id as nat),
            };
            Ok(
                (
                    upd_session(
                        s,
                        si,
                        UserM { username: Some(username), realname: Some(realname), ..u },
                    ),
                    seq![
                        (id, line_welcome(nick)),
                        (id, line_your_host(nick)),
                        (id, line_created(nick, s.created)),
                        (id, line_server_info(nick)),
                        (id, line_options(nick)),
                        (id, line_user_count(nick, s.sessions.len())),
                    ],
                ),
            )
        },
    }
}

/// JOIN: adds the session to the channel, creating it in name order if
/// absent, records the membership on the session, and sends the join echo
/// with the name list to the joiner and a personalized list to every other
/// member.
pub open spec fn spec_join(s: StateM, id: usize, chan: Seq<char>) -> Result<
    (StateM, Seq<(usize, Seq<char>)>),
    ErrM,
> {
    match sess_idx(s.sessions, id) {
        None => Err(ErrM::SessionNotFound),
        Some(si) => {
            let u = s.sessions[si];
            let members_after = match chan_idx(s.channels, chan) {
                Some(ci) => if s.channels[ci].members.contains(id) {
                    s.channels[ci].members
                } else {
                    s.channels[ci].members.push(id)
                },
                None => seq![id],
            };
            let channels2 = match chan_idx(s.channels, chan) {
                Some(ci) => s.channels.update(
                    ci,
                    ChannelM { members: members_after, ..s.channels[ci] },
                ),
                None => s.channels.insert(
                    insert_pos(s.channels, chan),
                    ChannelM { name: chan, members: members_after, topic: None, key: None },
                ),
            };
            let sessions2 = s.sessions.update(
                si,
                UserM {
                    channels: if u.channels.contains(chan) {
                        u.channels
                    } else {
                        u.channels.push(chan)
                    },
                    ..u
                },
            );
            let s2 = StateM { sessions: sessions2, channels: channels2, ..s };
            let nick = display_nick(u);
            let list = nicks_list(sessions2, members_after);
            let msgs = seq![
                (id, line_join(nick, chan)),
                (id, line_names(nick, chan, list)),
                (id, line_names_end(nick, chan)),
            ] + join_notices(sessions2, members_after, chan, list, id);
            Ok((s2, msgs))
        },
    }
}

/// PART: removes the membership on both sides, deletes the channel if
/// emptied, and echoes the part.
pub open spec fn spec_part(s: StateM, id: usize, chan: Seq<char>) -> Result<
    (StateM, Seq<(usize, Seq<char>)>),
    ErrM,
> {
    match sess_idx(s.sessions, id) {
        None => Err(ErrM::SessionNotFound),
        Some(si) => {
            let u = s.sessions[si];
            match chan_idx(s.channels, chan) {
                None => Err(ErrM::ChannelNotFound(chan)),
                Some(ci) => {
                    let c = s.channels[ci];
                    let left = c.members.remove_value(id);
                    let channels2 = if left.len() == 0 {
                        s.channels.remove(ci)
                    } else {
                        s.channels.update(ci, ChannelM { members: left, ..c })
                    };
                    let sessions2 = s.sessions.update(
                        si,
                        UserM { channels: u.channels.remove_value(chan), ..u },
                    );
                    Ok(
                        (
                            StateM { sessions: sessions2, channels: channels2, ..s },
                            seq![(id, line_part(display_nick(u), chan))],
                        ),
                    )
                },
            }
        },
    }
}

/// PRIVMSG: a channel target reaches every other member once; a nickname
/// target reaches exactly the first session registered under it, the sender
/// included if it is that session.
pub open spec fn spec_privmsg(s: StateM, id: usize, target: Seq<char>, text: Seq<char>) -> Result<
    (StateM, Seq<(usize, Seq<char>)>),
    ErrM,
> {
    match sess_idx(s.sessions, id) {
        None => Err(ErrM::SessionNotFound),
        Some(si) => {
            let nick = display_nick(s.sessions[si]);
            if target.len() > 0 && target[0] == '#' {
                match chan_idx(s.channels, target) {
                    None => Err(ErrM::ChannelNotFound(target)),
                    Some(ci) => if !s.channels[ci].members.contains(id) {
                        Err(ErrM::NotOnChannel)
                    } else {
                        Ok(
                            (
                                s,
                                fanout(
                                    s.channels[ci].members,
                                    id,
                                    line_privmsg(nick, target, text),
                                ),
                            ),
                        )
                    },
                }
            } else {
                match nick_idx(s.sessions, target) {
                    None => Err(ErrM::UserNotFound(target)),
                    Some(ti) => Ok(
                        (s, seq![(s.sessions[ti].id, line_privmsg(nick, target, text))]),
                    ),
                }
            }
        },
    }
}

/// QUIT: tears the session down as `spec_remove_session` says and echoes the
/// quit, with `Client Quit` standing in for a missing reason.
pub open spec fn spec_quit(s: StateM, id: usize, message: Option<Seq<char>>) -> Result<
    (StateM, Seq<(usize, Seq<char>)>),
    ErrM,
> {
    match sess_idx(s.sessions, id) {
        None => Err(ErrM::SessionNotFound),
        Some(si) => {
            let reason = match message {
                Some(m) => m,
                None => "Client Quit"@,
            };
            Ok(
                (
                    spec_remove_session(s, id),
                    seq![(id, line_quit(display_nick(s.sessions[si]), reason))],
                ),
            )
        },
    }
}

/// TOPIC: with a text sets the topic and echoes it; without one reports the
/// topic, or that none is set.
pub open spec fn spec_topic(
    s: StateM,
    id: usize,
    chan: Seq<char>,
    topic: Option<Seq<char>>,
) -> Result<(StateM, Seq<(usize, Seq<char>)>), ErrM> {
    match chan_idx(s.channels, chan) {
        None => Err(ErrM::ChannelNotFound(chan)),
        Some(ci) => match sess_idx(s.sessions, id) {
            None => Err(ErrM::SessionNotFound),
            Some(si) => {
                let nick = display_nick(s.sessions[si]);
                match topic {
                    Some(text) => Ok(
                        (
                            StateM {
                                channels: s.channels.update(
                                    ci,
                                    ChannelM { topic: Some(text), ..s.channels[ci] },
                                ),
                                ..s
                            },
                            seq![(id, line_topic_set(nick, chan, text))],
                        ),
                    ),
                    None => match s.channels[ci].topic {
                        Some(t) => Ok((s, seq![(id, line_topic_is(nick, chan, t))])),
                        None => Ok((s, seq![(id, line_topic_none(nick, chan))])),
                    },
                }
            },
        },
    }
}

/// NAMES: the member list of one channel, shown to the asker with `*` in the
/// nick slot.
pub open spec fn spec_names(s: StateM, id: usize, chan: Seq<char>) -> Result<
    (StateM, Seq<(usize, Seq<char>)>),
    ErrM,
> {
    match chan_idx(s.channels, chan) {
        None => Err(ErrM::ChannelNotFound(chan)),
        Some(ci) => Ok(
            (
                s,
                seq![
                    (id, line_names("*"@, chan, nicks_list(s.sessions, s.channels[ci].members))),
                    (id, line_names_end("*"@, chan)),
                ],
            ),
        ),
    }
}

/// LIST: one named channel's row, or every channel's row in ascending name
/// order, between the fixed header and trailer.
pub open spec fn spec_list(s: StateM, id: usize, chan: Option<Seq<char>>) -> Result<
    (StateM, Seq<(usize, Seq<char>)>),
    ErrM,
> {
    match chan {
        Some(name) => match chan_idx(s.channels, name) {
            None => Err(ErrM::ChannelNotFound(name)),
            Some(ci) => Ok(
                (
                    s,
                    seq![(id, line_list_head())] + seq![
                        (
                            id,
                            line_list_row(
                                name,
                                s.channels[ci].members.len(),
                                topic_or_empty(s.channels[ci].topic),
                            ),
                        ),
                    ] + seq![(id, line_list_end())],
                ),
            ),
        },
        None => Ok(
            (
                s,
                seq![(id, line_list_head())] + list_rows(s.channels, id) + seq![
                    (id, line_list_end()),
                ],
            ),
        ),
    }
}

/// CAP: LS and REQ get their fixed acknowledgements, END nothing; any other
/// subcommand is refused.
pub open spec fn spec_cap(s: StateM, id: usize, sub: Seq<char>) -> Result<
    (StateM, Seq<(usize, Seq<char>)>),
    ErrM,
> {
    if sub == "LS"@ {
        Ok((s, seq![(id, line_cap_ls())]))
    } else if sub == "REQ"@ {
        Ok((s, seq![(id, line_cap_ack())]))
    } else if sub == "END"@ {
        Ok((s, Seq::empty()))
    } else {
        Err(ErrM::UnknownCapSubcommand(sub))
    }
}

/// PONG: accepted for a live session; nothing changes and nothing is sent.
pub open spec fn spec_pong(s: StateM, id: usize) -> Result<
    (StateM, Seq<(usize, Seq<char>)>),
    ErrM,
> {
    match sess_idx(s.sessions, id) {
        None => Err(ErrM::SessionNotFound),
        Some(si) => Ok((s, Seq::empty())),
    }
}


/// What removing one value leaves of a duplicate-free sequence: the value is
/// gone, everything else stays.
pub proof fn lemma_remove_value<A>(ms: Seq<A>, v: A)
    requires
        ms.no_duplicates(),
    ensures
        ms.remove_value(v).no_duplicates(),
        !ms.remove_value(v).contains(v),
        forall|x: A| x != v ==> (ms.remove_value(v).contains(x) == ms.contains(x)),
        ms.contains(v) ==> ms.remove_value(v).len() == ms.len() - 1,
        !ms.contains(v) ==> ms.remove_value(v) == ms,
{
    ms.index_of_first_ensures(v);
    match ms.index_of_first(v) {
        Some(i) => {
            let out = ms.remove(i);
            ms.remove_ensures(i);
            assert forall|x: A| out.contains(x) implies ms.contains(x) && (x == v ==> false) by {
                let k = choose|k: int| 0 <= k < out.len() && out[k] == x;
                if k < i {
                    assert(ms[k] == x);
                    if x == v {
                        assert(ms[i] == v);
                    }
                } else {
                    assert(ms[k + 1] == x);
                    if x == v {
                        assert(ms[i] == v);
                    }
                }
            }
            assert forall|x: A| x != v && ms.contains(x) implies out.contains(x) by {
                let k = choose|k: int| 0 <= k < ms.len() && ms[k] == x;
                if k < i {
                    assert(out[k] == x);
                } else if k > i {
                    assert(out[k - 1] == x);
                }
            }
            assert forall|j1: int, j2: int|
                0 <= j1 < out.len() && 0 <= j2 < out.len() && j1 != j2 implies out[j1]
                != out[j2] by {
                let o1 = if j1 < i { j1 } else { j1 + 1 };
                let o2 = if j2 < i { j2 } else { j2 + 1 };
                assert(out[j1] == ms[o1]);
                assert(out[j2] == ms[o2]);
            }
        },
        None => {},
    }
}

/// The transformed channel a member removal makes of `c`.
pub open spec fn without_member(c: ChannelM, id: usize) -> ChannelM {
    ChannelM { members: c.members.remove_value(id), ..c }
}

/// Position `k` of `channels_without` holds the transformation of some
/// source channel.
pub open spec fn cw_elem_sourced(channels: Seq<ChannelM>, id: usize, k: int) -> bool {
    exists|i: int|
        0 <= i < channels.len() && #[trigger] channels_without(channels, id)[k] == without_member(
            channels[i],
            id,
        ) && channels_without(channels, id)[k].members.len() >= 1
}

/// The source channel transformed at position `i` appears in
/// `channels_without`.
pub open spec fn cw_has_transform(channels: Seq<ChannelM>, id: usize, i: int) -> bool {
    exists|k: int|
        0 <= k < channels_without(channels, id).len() && #[trigger] channels_without(channels, id)[k]
            == without_member(channels[i], id)
}

/// Every element of `channels_without` is the transformation of some source
/// channel, nonempty.
pub proof fn lemma_cw_elems(channels: Seq<ChannelM>, id: usize)
    ensures
        forall|k: int|
            0 <= k < channels_without(channels, id).len() ==> cw_elem_sourced(channels, id, k),
    decreases channels.len(),
{
    if channels.len() > 0 {
        lemma_cw_elems(channels.drop_last(), id);
        let cw = channels_without(channels, id);
        let cwd = channels_without(channels.drop_last(), id);
        assert forall|k: int| 0 <= k < cw.len() implies cw_elem_sourced(channels, id, k) by {
            if k < cwd.len() {
                assert(cw[k] == cwd[k]);
                assert(cw_elem_sourced(channels.drop_last(), id, k));
                let i = choose|i: int|
                    0 <= i < channels.drop_last().len() && channels_without(
                        channels.drop_last(),
                        id,
                    )[k] == without_member(channels.drop_last()[i], id) && channels_without(
                        channels.drop_last(),
                        id,
                    )[k].members.len() >= 1;
                assert(channels.drop_last()[i] == channels[i]);
                assert(cw[k] == without_member(channels[i], id));
            } else {
                let i = channels.len() - 1;
                assert(channels.last() == channels[i]);
                assert(cw[k] == without_member(channels[i], id));
            }
        }
    }
}

/// Removing a member keeps every channel name below a bound.
proof fn lemma_cw_bound(channels: Seq<ChannelM>, id: usize, bound: Seq<char>)
    requires
        forall|i: int| 0 <= i < channels.len() ==> lex_lt((#[trigger] channels[i]).name, bound),
    ensures
        forall|k: int|
            0 <= k < channels_without(channels, id).len() ==> lex_lt(
                (#[trigger] channels_without(channels, id)[k]).name,
                bound,
            ),
    decreases channels.len(),
{
    if channels.len() > 0 {
        assert(forall|i: int|
            0 <= i < channels.drop_last().len() ==> #[trigger] channels.drop_last()[i]
                == channels[i]);
        lemma_cw_bound(channels.drop_last(), id, bound);
        assert(channels.last() == channels[channels.len() - 1]);
    }
}

/// Removing a member keeps the registry's strict name order.
pub proof fn lemma_cw_sorted(channels: Seq<ChannelM>, id: usize)
    requires
        forall|i: int, j: int|
            0 <= i < j < channels.len() ==> lex_lt(
                (#[trigger] channels[i]).name,
                (#[trigger] channels[j]).name,
            ),
    ensures
        forall|k1: int, k2: int|
            0 <= k1 < k2 < channels_without(channels, id).len() ==> lex_lt(
                (#[trigger] channels_without(channels, id)[k1]).name,
                (#[trigger] channels_without(channels, id)[k2]).name,
            ),
    decreases channels.len(),
{
    if channels.len() > 0 {
        let dl = channels.drop_last();
        assert(forall|i: int| 0 <= i < dl.len() ==> #[trigger] dl[i] == channels[i]);
        lemma_cw_sorted(dl, id);
        let cw = channels_without(channels, id);
        let cwd = channels_without(dl, id);
        assert(channels.last() == channels[channels.len() - 1]);
        assert(forall|i: int|
            0 <= i < dl.len() ==> lex_lt((#[trigger] dl[i]).name, channels.last().name));
        lemma_cw_bound(dl, id, channels.last().name);
        assert forall|k1: int, k2: int| 0 <= k1 < k2 < cw.len() implies lex_lt(
            (#[trigger] cw[k1]).name,
            (#[trigger] cw[k2]).name,
        ) by {
            if k2 < cwd.len() {
                assert(cw[k1] == cwd[k1]);
                assert(cw[k2] == cwd[k2]);
            } else {
                assert(cw[k1] == cwd[k1]);
                assert(cw[k2].name == channels.last().name);
                assert(lex_lt(cwd[k1].name, channels.last().name));
            }
        }
    }
}

/// Every source channel that stays nonempty is found again, transformed, in
/// `channels_without`: the statement of `lemma_cw_forward`.
pub open spec fn cw_forward_ok(channels: Seq<ChannelM>, id: usize) -> bool {
    forall|i: int|
        #![trigger channels[i].members.remove_value(id)]
        0 <= i < channels.len() && channels[i].members.remove_value(id).len() >= 1
            ==> cw_has_transform(channels, id, i)
}

pub proof fn lemma_cw_forward(channels: Seq<ChannelM>, id: usize)
    ensures
        cw_forward_ok(channels, id),
    decreases channels.len(),
{
    if channels.len() > 0 {
        let dl = channels.drop_last();
        lemma_cw_forward(dl, id);
        let cw = channels_without(channels, id);
        let cwd = channels_without(dl, id);
        assert forall|i: int|
            #![trigger channels[i].members.remove_value(id)]
            0 <= i < channels.len() && channels[i].members.remove_value(id).len()
                >= 1 implies cw_has_transform(channels, id, i) by {
            assert(cw_forward_ok(dl, id));
            if i < channels.len() - 1 {
                assert(dl[i] == channels[i]);
                assert(dl[i].members.remove_value(id).len() >= 1);
                assert(cw_has_transform(dl, id, i));
                let k = choose|k: int|
                    0 <= k < channels_without(dl, id).len() && channels_without(dl, id)[k]
                        == without_member(dl[i], id);
                assert(cw[k] == cwd[k]);
                assert(cw[k] == without_member(channels[i], id));
            } else {
                assert(channels.last() == channels[i]);
                let k = cwd.len() as int;
                assert(cw[k] == without_member(channels[i], id));
            }
        }
    }
}

/// Sessions with the same ids in the same order resolve every id lookup the
/// same way.
pub proof fn lemma_sess_idx_same_ids(a: Seq<UserM>, b: Seq<UserM>)
    requires
        a.len() == b.len(),
        forall|j: int| 0 <= j < a.len() ==> (#[trigger] a[j]).id == b[j].id,
    ensures
        forall|m: usize| #[trigger] sess_idx(b, m) == sess_idx(a, m),
{
    assert forall|m: usize| #[trigger] sess_idx(b, m) == sess_idx(a, m) by {
        crate::state::lemma_sess_idx(a, m);
        match sess_idx(a, m) {
            Some(k) => {
                assert(a[k].id == b[k].id);
                assert forall|j: int| 0 <= j < k implies (#[trigger] b[j]).id != m by {
                    assert(a[j].id == b[j].id);
                    assert(a[j].id != m);
                }
                crate::state::lemma_sess_idx_is(b, m, k);
            },
            None => {
                crate::state::lemma_sess_idx(b, m);
                match sess_idx(b, m) {
                    Some(k) => {
                        assert(a[k].id == b[k].id);
                        assert(a[k].id != m);
                    },
                    None => {},
                }
            },
        }
    }
}

/// Channels with the same names in the same order resolve every name lookup
/// the same way.
pub proof fn lemma_chan_idx_same_names(a: Seq<ChannelM>, b: Seq<ChannelM>)
    requires
        a.len() == b.len(),
        forall|j: int| 0 <= j < a.len() ==> (#[trigger] a[j]).name == b[j].name,
    ensures
        forall|m: Seq<char>| #[trigger] chan_idx(b, m) == chan_idx(a, m),
{
    assert forall|m: Seq<char>| #[trigger] chan_idx(b, m) == chan_idx(a, m) by {
        crate::state::lemma_chan_idx(a, m);
        match chan_idx(a, m) {
            Some(k) => {
                assert(a[k].name == b[k].name);
                assert forall|j: int| 0 <= j < k implies (#[trigger] b[j]).name != m by {
                    assert(a[j].name == b[j].name);
                    assert(a[j].name != m);
                }
                crate::state::lemma_chan_idx_is(b, m, k);
            },
            None => {
                crate::state::lemma_chan_idx(b, m);
                match chan_idx(b, m) {
                    Some(k) => {
                        assert(a[k].name == b[k].name);
                        assert(a[k].name != m);
                    },
                    None => {},
                }
            },
        }
    }
}

/// Replacing one session with one of the same id and channel list keeps the
/// registries well formed.
pub proof fn lemma_wf_upd_session(s: StateM, si: int, u2: UserM)
    requires
        crate::state::wf_state(s),
        0 <= si < s.sessions.len(),
        u2.id == s.sessions[si].id,
        u2.channels == s.sessions[si].channels,
    ensures
        crate::state::wf_state(upd_session(s, si, u2)),
{
    let post = upd_session(s, si, u2);
    assert(crate::state::wf_sessions(post));
    assert(crate::state::wf_channels(post));
    lemma_sess_idx_same_ids(s.sessions, post.sessions);
    assert forall|ci: int, mi: int|
        0 <= ci < post.channels.len() && 0 <= mi < post.channels[ci].members.len() implies {
        let m = (#[trigger] post.channels[ci].members[mi]);
        match sess_idx(post.sessions, m) {
            Some(k) => post.sessions[k].channels.contains(post.channels[ci].name),
            None => false,
        }
    } by {
        let m = post.channels[ci].members[mi];
        assert(s.channels[ci].members[mi] == m);
        assert(sess_idx(post.sessions, m) == sess_idx(s.sessions, m));
        crate::state::lemma_sess_idx(s.sessions, m);
        match sess_idx(s.sessions, m) {
            Some(k) => {
                assert(s.sessions[k].channels.contains(s.channels[ci].name));
                assert(post.sessions[k].channels == s.sessions[k].channels);
            },
            None => {},
        }
    }
    assert(crate::state::wf_links(post));
}

/// Replacing one channel with one of the same name and members keeps the
/// registries well formed.
pub proof fn lemma_wf_upd_channel(s: StateM, ci: int, c2: ChannelM)
    requires
        crate::state::wf_state(s),
        0 <= ci < s.channels.len(),
        c2.name == s.channels[ci].name,
        c2.members == s.channels[ci].members,
    ensures
        crate::state::wf_state(
            StateM { channels: s.channels.update(ci, c2), ..s },
        ),
{
    let post = StateM { channels: s.channels.update(ci, c2), ..s };
    assert(crate::state::wf_sessions(post));
    assert(crate::state::wf_channels(post));
    lemma_chan_idx_same_names(s.channels, post.channels);
    assert forall|si: int, cj: int|
        0 <= si < post.sessions.len() && 0 <= cj < post.sessions[si].channels.len() implies {
        let nm = (#[trigger] post.sessions[si].channels[cj]);
        match chan_idx(post.channels, nm) {
            Some(k) => post.channels[k].members.contains(post.sessions[si].id),
            None => false,
        }
    } by {
        let nm = post.sessions[si].channels[cj];
        assert(s.sessions[si].channels[cj] == nm);
        assert(chan_idx(post.channels, nm) == chan_idx(s.channels, nm));
        crate::state::lemma_chan_idx(s.channels, nm);
        match chan_idx(s.channels, nm) {
            Some(k) => {
                assert(s.channels[k].members.contains(s.sessions[si].id));
                assert(post.channels[k].members == s.channels[k].members);
                assert(post.sessions[si].id == s.sessions[si].id);
            },
            None => {},
        }
    }
    assert(crate::state::wf_links(post));
}


/// Tearing a session down keeps the registries well formed: the departed id
/// is gone from every member list, emptied channels are deleted, and all
/// links still hold.
pub proof fn lemma_wf_remove_session(s: StateM, id: usize)
    requires
        crate::state::wf_state(s),
    ensures
        crate::state::wf_state(spec_remove_session(s, id)),
{
    crate::state::lemma_sess_idx(s.sessions, id);
    match sess_idx(s.sessions, id) {
        None => {},
        Some(si) => {
            let post = spec_remove_session(s, id);
            let cw = channels_without(s.channels, id);
            lemma_cw_elems(s.channels, id);
            lemma_cw_sorted(s.channels, id);
            lemma_cw_forward(s.channels, id);
            s.sessions.remove_ensures(si);
            assert(s.sessions[si].id == id);
            // sessions: remove keeps ids unique and bounded, channel lists untouched
            assert forall|i: int, j: int|
                0 <= i < post.sessions.len() && 0 <= j < post.sessions.len() && i != j implies (
            #[trigger] post.sessions[i]).id != (#[trigger] post.sessions[j]).id by {
                let oi: int = if i < si { i } else { i + 1 };
                let oj: int = if j < si { j } else { j + 1 };
                assert(post.sessions[i] == s.sessions[oi]);
                assert(post.sessions[j] == s.sessions[oj]);
            }
            assert forall|i: int| 0 <= i < post.sessions.len() implies (
            #[trigger] post.sessions[i]).id < post.next_id && post.sessions[i].channels.no_duplicates() by {
                let oi: int = if i < si { i } else { i + 1 };
                assert(post.sessions[i] == s.sessions[oi]);
            }
            assert(crate::state::wf_sessions(post));
            // channels: every element is a transformed source channel
            assert forall|k: int| 0 <= k < post.channels.len() implies (#[trigger] post.channels[k]).members.len() >= 1
                && post.channels[k].members.no_duplicates() by {
                assert(cw_elem_sourced(s.channels, id, k));
                let i = choose|i: int|
                    0 <= i < s.channels.len() && channels_without(s.channels, id)[k]
                        == without_member(s.channels[i], id) && channels_without(
                        s.channels,
                        id,
                    )[k].members.len() >= 1;
                assert(s.channels[i].members.no_duplicates());
                lemma_remove_value(s.channels[i].members, id);
            }
            assert(crate::state::wf_channels(post));
            // links, channel side
            assert forall|ci: int, mi: int|
                0 <= ci < post.channels.len() && 0 <= mi
                    < post.channels[ci].members.len() implies {
                let m = (#[trigger] post.channels[ci].members[mi]);
                match sess_idx(post.sessions, m) {
                    Some(k) => post.sessions[k].channels.contains(post.channels[ci].name),
                    None => false,
                }
            } by {
                let m = post.channels[ci].members[mi];
                assert(cw_elem_sourced(s.channels, id, ci));
                let i = choose|i: int|
                    0 <= i < s.channels.len() && channels_without(s.channels, id)[ci]
                        == without_member(s.channels[i], id) && channels_without(
                        s.channels,
                        id,
                    )[ci].members.len() >= 1;
                assert(s.channels[i].members.no_duplicates());
                lemma_remove_value(s.channels[i].members, id);
                assert(m != id);
                assert(s.channels[i].members.contains(m));
                let mi0 = choose|mi0: int|
                    0 <= mi0 < s.channels[i].members.len() && s.channels[i].members[mi0] == m;
                assert(s.channels[i].members[mi0] == m);
                crate::state::lemma_sess_idx(s.sessions, m);
                let k0 = sess_idx(s.sessions, m)->0;
                assert(s.sessions[k0].channels.contains(s.channels[i].name));
                assert(s.sessions[k0].id == m);
                assert(k0 != si);
                let k1: int = if k0 < si { k0 } else { k0 - 1 };
                assert(post.sessions[k1] == s.sessions[k0]);
                assert forall|j: int| 0 <= j < k1 implies (#[trigger] post.sessions[j]).id
                    != m by {
                    let oj: int = if j < si { j } else { j + 1 };
                    assert(post.sessions[j] == s.sessions[oj]);
                    assert(oj < k0);
                }
                crate::state::lemma_sess_idx_is(post.sessions, m, k1);
            }
            // links, session side
            assert forall|si2: int, cj: int|
                0 <= si2 < post.sessions.len() && 0 <= cj
                    < post.sessions[si2].channels.len() implies {
                let nm = (#[trigger] post.sessions[si2].channels[cj]);
                match chan_idx(post.channels, nm) {
                    Some(k) => post.channels[k].members.contains(post.sessions[si2].id),
                    None => false,
                }
            } by {
                let o2: int = if si2 < si { si2 } else { si2 + 1 };
                assert(post.sessions[si2] == s.sessions[o2]);
                let u2 = s.sessions[o2];
                let nm = u2.channels[cj];
                crate::state::lemma_chan_idx(s.channels, nm);
                let c0 = chan_idx(s.channels, nm)->0;
                assert(s.channels[c0].members.contains(u2.id));
                assert(o2 != si);
                assert(u2.id != id);
                assert(s.channels[c0].members.no_duplicates());
                lemma_remove_value(s.channels[c0].members, id);
                assert(s.channels[c0].members.remove_value(id).contains(u2.id));
                assert(s.channels[c0].members.remove_value(id).len() >= 1);
                assert(cw_forward_ok(s.channels, id));
                assert(cw_has_transform(s.channels, id, c0));
                let k = choose|k: int|
                    0 <= k < channels_without(s.channels, id).len() && channels_without(
                        s.channels,
                        id,
                    )[k] == without_member(s.channels[c0], id);
                assert(cw[k].name == nm);
                assert(cw[k].members.contains(u2.id));
                assert forall|j: int| 0 <= j < k implies (#[trigger] cw[j]).name != nm by {
                    assert(lex_lt(cw[j].name, cw[k].name));
                    crate::strings::lemma_lex_lt_irrefl(cw[k].name);
                }
                crate::state::lemma_chan_idx_is(cw, nm, k);
            }
            assert(crate::state::wf_links(post));
        },
    }
}


/// Parting a channel keeps the registries well formed.
pub proof fn lemma_wf_part(s: StateM, id: usize, chan: Seq<char>)
    requires
        crate::state::wf_state(s),
        spec_part(s, id, chan) is Ok,
    ensures
        crate::state::wf_state(spec_part(s, id, chan)->Ok_0.0),
{
    crate::state::lemma_sess_idx(s.sessions, id);
    crate::state::lemma_chan_idx(s.channels, chan);
    let si = sess_idx(s.sessions, id)->0;
    let ci = chan_idx(s.channels, chan)->0;
    let u = s.sessions[si];
    let c = s.channels[ci];
    let left = c.members.remove_value(id);
    let post = spec_part(s, id, chan)->Ok_0.0;
    assert(u.channels.no_duplicates());
    assert(c.members.no_duplicates());
    lemma_remove_value(u.channels, chan);
    lemma_remove_value(c.members, id);
    assert(c.name == chan);
    // names are unique in a sorted registry
    assert forall|i: int, j: int|
        0 <= i < s.channels.len() && 0 <= j < s.channels.len() && i != j implies (
    #[trigger] s.channels[i]).name != (#[trigger] s.channels[j]).name by {
        if i < j {
            crate::strings::lemma_lex_lt_irrefl(s.channels[i].name);
        } else {
            crate::strings::lemma_lex_lt_irrefl(s.channels[j].name);
        }
    }
    // session side of the new state
    assert forall|i: int| 0 <= i < post.sessions.len() implies (#[trigger] post.sessions[i]).id
        == s.sessions[i].id && post.sessions[i].channels.no_duplicates() by {
        if i != si {
            assert(post.sessions[i] == s.sessions[i]);
        }
    }
    assert(crate::state::wf_sessions(post));
    lemma_sess_idx_same_ids(s.sessions, post.sessions);
    if left.len() == 0 {
        s.channels.remove_ensures(ci);
        assert forall|k: int| 0 <= k < post.channels.len() implies #[trigger] post.channels[k]
            == s.channels[if k < ci { k } else { k + 1 }] by {}
        assert forall|k1: int, k2: int|
            0 <= k1 < k2 < post.channels.len() implies lex_lt(
            (#[trigger] post.channels[k1]).name,
            (#[trigger] post.channels[k2]).name,
        ) by {
            let o1: int = if k1 < ci { k1 } else { k1 + 1 };
            let o2: int = if k2 < ci { k2 } else { k2 + 1 };
            assert(post.channels[k1] == s.channels[o1]);
            assert(post.channels[k2] == s.channels[o2]);
        }
        assert(crate::state::wf_channels(post));
    } else {
        assert forall|k: int| 0 <= k < post.channels.len() implies (
        #[trigger] post.channels[k]).name == s.channels[k].name by {}
        assert(crate::state::wf_channels(post));
        lemma_chan_idx_same_names(s.channels, post.channels);
    }
    // links, channel side
    assert forall|ck: int, mi: int|
        0 <= ck < post.channels.len() && 0 <= mi < post.channels[ck].members.len() implies {
        let m = (#[trigger] post.channels[ck].members[mi]);
        match sess_idx(post.sessions, m) {
            Some(k) => post.sessions[k].channels.contains(post.channels[ck].name),
            None => false,
        }
    } by {
        let m = post.channels[ck].members[mi];
        let ok: int = if left.len() == 0 {
            if ck < ci {
                ck
            } else {
                ck + 1
            }
        } else {
            ck
        };
        assert(post.channels[ck].name == s.channels[ok].name);
        assert(s.channels[ok].members.contains(m)) by {
            if left.len() != 0 && ok == ci {
                assert(post.channels[ck].members == left);
            } else {
                assert(post.channels[ck].members == s.channels[ok].members);
            }
        }
        let mi0 = choose|mi0: int|
            0 <= mi0 < s.channels[ok].members.len() && s.channels[ok].members[mi0] == m;
        assert(s.channels[ok].members[mi0] == m);
        crate::state::lemma_sess_idx(s.sessions, m);
        let k0 = sess_idx(s.sessions, m)->0;
        assert(s.sessions[k0].channels.contains(s.channels[ok].name));
        assert(sess_idx(post.sessions, m) == sess_idx(s.sessions, m));
        if k0 == si {
            assert(post.sessions[k0].channels == u.channels.remove_value(chan));
            assert(s.channels[ok].name != chan) by {
                if left.len() != 0 && ok == ci {
                    assert(post.channels[ck].members == left);
                    assert(!left.contains(id));
                    assert(m != id);
                    assert(s.sessions[k0].id == m);
                    assert(s.sessions[si].id == id);
                } else {
                }
            }
        } else {
            assert(post.sessions[k0] == s.sessions[k0]);
        }
    }
    // links, session side
    assert forall|sj: int, cj: int|
        0 <= sj < post.sessions.len() && 0 <= cj < post.sessions[sj].channels.len() implies {
        let nm = (#[trigger] post.sessions[sj].channels[cj]);
        match chan_idx(post.channels, nm) {
            Some(k) => post.channels[k].members.contains(post.sessions[sj].id),
            None => false,
        }
    } by {
        let nm = post.sessions[sj].channels[cj];
        let uid = post.sessions[sj].id;
        assert(uid == s.sessions[sj].id);
        // nm is one of the session's previous channels, never the parted one for sj == si
        assert(s.sessions[sj].channels.contains(nm) && (sj == si ==> nm != chan)) by {
            if sj == si {
                assert(post.sessions[sj].channels == u.channels.remove_value(chan));
            } else {
                assert(post.sessions[sj] == s.sessions[sj]);
            }
        }
        let cj0 = choose|cj0: int|
            0 <= cj0 < s.sessions[sj].channels.len() && s.sessions[sj].channels[cj0] == nm;
        assert(s.sessions[sj].channels[cj0] == nm);
        crate::state::lemma_chan_idx(s.channels, nm);
        let c0 = chan_idx(s.channels, nm)->0;
        assert(s.channels[c0].members.contains(uid));
        if left.len() == 0 {
            // the parted channel is gone; nm names another channel
            assert(c0 != ci) by {
                if c0 == ci {
                    assert(nm == chan);
                    assert(uid != id) by {
                        if sj == si {
                        } else {
                            assert(s.sessions[sj].id != s.sessions[si].id);
                        }
                    }
                    assert(left.contains(uid));
                }
            }
            let c1: int = if c0 < ci { c0 } else { c0 - 1 };
            assert(post.channels[c1] == s.channels[c0]);
            assert forall|j: int| 0 <= j < c1 implies (#[trigger] post.channels[j]).name
                != nm by {
                let oj: int = if j < ci { j } else { j + 1 };
                assert(post.channels[j] == s.channels[oj]);
                assert(oj < c0);
            }
            crate::state::lemma_chan_idx_is(post.channels, nm, c1);
        } else {
            assert(chan_idx(post.channels, nm) == chan_idx(s.channels, nm));
            if c0 == ci {
                assert(nm == chan);
                assert(sj != si);
                assert(uid != id);
                assert(post.channels[c0].members == left);
                assert(left.contains(uid));
            } else {
                assert(post.channels[c0] == s.channels[c0]);
            }
        }
    }
    assert(crate::state::wf_links(post));
}


/// A position with the first-fit property is the insertion position.
pub proof fn lemma_insert_pos_is(channels: Seq<ChannelM>, name: Seq<char>, p: int)
    requires
        0 <= p <= channels.len(),
        forall|j: int| 0 <= j < p ==> !lex_lt(name, (#[trigger] channels[j]).name),
        p < channels.len() ==> lex_lt(name, channels[p].name),
    ensures
        insert_pos(channels, name) == p,
{
    lemma_insert_pos(channels, name);
    let ip = insert_pos(channels, name);
    if ip < p {
        assert(lex_lt(name, channels[ip].name));
        assert(!lex_lt(name, channels[ip].name));
    } else if ip > p {
        assert(p < channels.len());
        assert(!lex_lt(name, channels[p].name));
    }
}

/// Joining a channel keeps the registries well formed, whether the channel
/// already exists or is created.
#[verifier::rlimit(60)]
pub proof fn lemma_wf_join(s: StateM, id: usize, chan: Seq<char>)
    requires
        crate::state::wf_state(s),
        spec_join(s, id, chan) is Ok,
    ensures
        crate::state::wf_state(spec_join(s, id, chan)->Ok_0.0),
{
    crate::state::lemma_sess_idx(s.sessions, id);
    crate::state::lemma_chan_idx(s.channels, chan);
    let si = sess_idx(s.sessions, id)->0;
    let u = s.sessions[si];
    let post = spec_join(s, id, chan)->Ok_0.0;
    assert(u.channels.no_duplicates());
    // session side: same ids, the joiner's list gains at most the new name
    assert forall|i: int| 0 <= i < post.sessions.len() implies (#[trigger] post.sessions[i]).id
        == s.sessions[i].id && post.sessions[i].channels.no_duplicates() by {
        if i != si {
            assert(post.sessions[i] == s.sessions[i]);
        } else {
            if !u.channels.contains(chan) {
                assert(post.sessions[i].channels == u.channels.push(chan));
                assert forall|j1: int, j2: int|
                    0 <= j1 < u.channels.push(chan).len() && 0 <= j2 < u.channels.push(
                        chan,
                    ).len() && j1 != j2 implies u.channels.push(chan)[j1] != u.channels.push(
                    chan,
                )[j2] by {
                    if j1 < u.channels.len() && j2 < u.channels.len() {
                    } else if j1 < u.channels.len() {
                        assert(u.channels.push(chan)[j1] == u.channels[j1]);
                        assert(u.channels.contains(u.channels[j1]));
                    } else if j2 < u.channels.len() {
                        assert(u.channels.push(chan)[j2] == u.channels[j2]);
                        assert(u.channels.contains(u.channels[j2]));
                    }
                }
            }
        }
    }
    assert(crate::state::wf_sessions(post));
    lemma_sess_idx_same_ids(s.sessions, post.sessions);
    assert(sess_idx(post.sessions, id) == Some(si));
    assert(post.sessions[si].channels.contains(chan)) by {
        if u.channels.contains(chan) {
        } else {
            assert(post.sessions[si].channels == u.channels.push(chan));
            assert(u.channels.push(chan)[u.channels.len() as int] == chan);
        }
    }
    match chan_idx(s.channels, chan) {
        Some(ci) => {
            let c = s.channels[ci];
            let members2 = if c.members.contains(id) {
                c.members
            } else {
                c.members.push(id)
            };
            assert(post.channels == s.channels.update(ci, ChannelM { members: members2, ..c }));
            assert forall|k: int| 0 <= k < post.channels.len() implies (
            #[trigger] post.channels[k]).name == s.channels[k].name by {}
            lemma_chan_idx_same_names(s.channels, post.channels);
            // the grown member list stays duplicate-free and keeps everyone
            assert(members2.no_duplicates()) by {
                if !c.members.contains(id) {
                    assert forall|j1: int, j2: int|
                        0 <= j1 < members2.len() && 0 <= j2 < members2.len() && j1
                            != j2 implies members2[j1] != members2[j2] by {
                        if j1 < c.members.len() && j2 < c.members.len() {
                        } else if j1 < c.members.len() {
                            assert(members2[j1] == c.members[j1]);
                            assert(c.members.contains(c.members[j1]));
                        } else if j2 < c.members.len() {
                            assert(members2[j2] == c.members[j2]);
                            assert(c.members.contains(c.members[j2]));
                        }
                    }
                }
            }
            assert(crate::state::wf_channels(post));
            assert forall|ck: int, mi: int|
                0 <= ck < post.channels.len() && 0 <= mi
                    < post.channels[ck].members.len() implies {
                let m = (#[trigger] post.channels[ck].members[mi]);
                match sess_idx(post.sessions, m) {
                    Some(k) => post.sessions[k].channels.contains(post.channels[ck].name),
                    None => false,
                }
            } by {
                let m = post.channels[ck].members[mi];
                if ck == ci && mi == c.members.len() {
                    assert(m == id);
                } else {
                    assert(s.channels[ck].members[mi] == m);
                    crate::state::lemma_sess_idx(s.sessions, m);
                    let k0 = sess_idx(s.sessions, m)->0;
                    assert(s.sessions[k0].channels.contains(s.channels[ck].name));
                    if k0 == si {
                        assert(post.sessions[si].channels.contains(s.channels[ck].name)) by {
                            if !u.channels.contains(chan) {
                                let w = choose|w: int|
                                    0 <= w < u.channels.len() && u.channels[w] == s.channels[ck].name;
                                assert(u.channels.push(chan)[w] == s.channels[ck].name);
                            }
                        }
                    } else {
                        assert(post.sessions[k0] == s.sessions[k0]);
                    }
                }
            }
            assert forall|sj: int, cj: int|
                0 <= sj < post.sessions.len() && 0 <= cj
                    < post.sessions[sj].channels.len() implies {
                let nm = (#[trigger] post.sessions[sj].channels[cj]);
                match chan_idx(post.channels, nm) {
                    Some(k) => post.channels[k].members.contains(post.sessions[sj].id),
                    None => false,
                }
            } by {
                let nm = post.sessions[sj].channels[cj];
                let uid = post.sessions[sj].id;
                assert(chan_idx(post.channels, nm) == chan_idx(s.channels, nm));
                if sj == si && cj == u.channels.len() && !u.channels.contains(chan) {
                    assert(nm == chan);
                    assert(uid == id);
                    assert(post.channels[ci].members == members2);
                    assert(members2.contains(id)) by {
                        if c.members.contains(id) {
                        } else {
                            assert(members2[c.members.len() as int] == id);
                        }
                    }
                } else {
                    assert(s.sessions[sj].channels[cj] == nm);
                    crate::state::lemma_chan_idx(s.channels, nm);
                    let c0 = chan_idx(s.channels, nm)->0;
                    assert(s.channels[c0].members.contains(uid));
                    if c0 == ci {
                        assert(post.channels[c0].members == members2);
                        assert(members2.contains(uid)) by {
                            let w = choose|w: int|
                                0 <= w < c.members.len() && c.members[w] == uid;
                            if !c.members.contains(id) {
                                assert(members2[w] == uid);
                            }
                        }
                    } else {
                        assert(post.channels[c0] == s.channels[c0]);
                    }
                }
            }
            assert(crate::state::wf_links(post));
        },
        None => {
            let pos = insert_pos(s.channels, chan);
            lemma_insert_pos(s.channels, chan);
            let newc = ChannelM { name: chan, members: seq![id], topic: None, key: None };
            assert(post.channels == s.channels.insert(pos, newc));
            s.channels.insert_ensures(pos, newc);
            // the joiner could not have listed an absent channel
            assert(!u.channels.contains(chan)) by {
                if u.channels.contains(chan) {
                    let w = choose|w: int|
                        0 <= w < u.channels.len() && u.channels[w] == chan;
                    assert(u.channels[w] == chan);
                    crate::state::lemma_chan_idx(s.channels, chan);
                }
            }
            assert(post.sessions[si].channels == u.channels.push(chan));
            // strict order around the insertion point
            assert forall|j: int| 0 <= j < pos implies lex_lt(
                (#[trigger] s.channels[j]).name,
                chan,
            ) by {
                crate::strings::lemma_lex_lt_total(chan, s.channels[j].name);
                assert(s.channels[j].name != chan);
            }
            assert forall|j: int| pos <= j < s.channels.len() implies lex_lt(
                chan,
                (#[trigger] s.channels[j]).name,
            ) by {
                if j > pos {
                    crate::strings::lemma_lex_lt_trans(
                        chan,
                        s.channels[pos].name,
                        s.channels[j].name,
                    );
                }
            }
            assert forall|k1: int, k2: int|
                0 <= k1 < k2 < post.channels.len() implies lex_lt(
                (#[trigger] post.channels[k1]).name,
                (#[trigger] post.channels[k2]).name,
            ) by {
                if k1 < pos {
                    assert(post.channels[k1] == s.channels[k1]);
                } else if k1 == pos {
                    assert(post.channels[k1] == newc);
                } else {
                    assert(post.channels[k1] == s.channels[k1 - 1]);
                }
                if k2 < pos {
                    assert(post.channels[k2] == s.channels[k2]);
                } else if k2 == pos {
                    assert(post.channels[k2] == newc);
                } else {
                    assert(post.channels[k2] == s.channels[k2 - 1]);
                }
            }
            assert(crate::state::wf_channels(post));
            assert forall|ck: int, mi: int|
                0 <= ck < post.channels.len() && 0 <= mi
                    < post.channels[ck].members.len() implies {
                let m = (#[trigger] post.channels[ck].members[mi]);
                match sess_idx(post.sessions, m) {
                    Some(k) => post.sessions[k].channels.contains(post.channels[ck].name),
                    None => false,
                }
            } by {
                let m = post.channels[ck].members[mi];
                if ck == pos {
                    assert(post.channels[ck] == newc);
                    assert(m == id);
                    assert(post.sessions[si].channels[u.channels.len() as int] == chan);
                } else {
                    let ok: int = if ck < pos { ck } else { ck - 1 };
                    assert(post.channels[ck] == s.channels[ok]);
                    assert(s.channels[ok].members[mi] == m);
                    crate::state::lemma_sess_idx(s.sessions, m);
                    let k0 = sess_idx(s.sessions, m)->0;
                    assert(s.sessions[k0].channels.contains(s.channels[ok].name));
                    if k0 == si {
                        let w = choose|w: int|
                            0 <= w < u.channels.len() && u.channels[w] == s.channels[ok].name;
                        assert(u.channels.push(chan)[w] == s.channels[ok].name);
                    } else {
                        assert(post.sessions[k0] == s.sessions[k0]);
                    }
                }
            }
            assert forall|sj: int, cj: int|
                0 <= sj < post.sessions.len() && 0 <= cj
                    < post.sessions[sj].channels.len() implies {
                let nm = (#[trigger] post.sessions[sj].channels[cj]);
                match chan_idx(post.channels, nm) {
                    Some(k) => post.channels[k].members.contains(post.sessions[sj].id),
                    None => false,
                }
            } by {
                let nm = post.sessions[sj].channels[cj];
                let uid = post.sessions[sj].id;
                if sj == si && cj == u.channels.len() {
                    assert(nm == chan);
                    assert(uid == id);
                    assert(post.channels[pos] == newc);
                    assert forall|j: int| 0 <= j < pos implies (
                    #[trigger] post.channels[j]).name != chan by {
                        assert(post.channels[j] == s.channels[j]);
                        crate::strings::lemma_lex_lt_irrefl(chan);
                    }
                    crate::state::lemma_chan_idx_is(post.channels, chan, pos);
                    assert(newc.members[0] == id);
                } else {
                    assert(s.sessions[sj].channels[cj] == nm);
                    crate::state::lemma_chan_idx(s.channels, nm);
                    let c0 = chan_idx(s.channels, nm)->0;
                    assert(s.channels[c0].members.contains(uid));
                    assert(nm != chan);
                    let c1: int = if c0 < pos { c0 } else { c0 + 1 };
                    assert(post.channels[c1] == s.channels[c0]);
                    assert forall|j: int| 0 <= j < c1 implies (
                    #[trigger] post.channels[j]).name != nm by {
                        if j == pos {
                            assert(post.channels[j] == newc);
                        } else {
                            let oj: int = if j < pos { j } else { j - 1 };
                            assert(post.channels[j] == s.channels[oj]);
                            assert(oj < c0);
                        }
                    }
                    crate::state::lemma_chan_idx_is(post.channels, nm, c1);
                }
            }
            assert(crate::state::wf_links(post));
        },
    }
}

/// One command against the registries: the new state and the addressed
/// lines, or the error, exactly as the per-verb functions say.
pub open spec fn spec_apply(s: StateM, cmd: CommandM, id: usize) -> Result<
    (StateM, Seq<(usize, Seq<char>)>),
    ErrM,
> {
    match cmd {
        CommandM::Nick(nick) => spec_nick(s, id, nick),
        CommandM::User(username, _mode, realname) => spec_user(s, id, username, realname),
        CommandM::Join(chan) => spec_join(s, id, chan),
        CommandM::Part(chan) => spec_part(s, id, chan),
        CommandM::PrivMsg(target, text) => spec_privmsg(s, id, target, text),
        CommandM::Quit(message) => spec_quit(s, id, message),
        CommandM::Ping(token) => Ok((s, seq![(id, line_pong(token))])),
        CommandM::Pong(_) => spec_pong(s, id),
        CommandM::Mode(_, _, _) => Err(ErrM::NotImplemented("MODE"@)),
        CommandM::Topic(chan, topic) => spec_topic(s, id, chan, topic),
        CommandM::Names(chan) => spec_names(s, id, chan),
        CommandM::List(chan) => spec_list(s, id, chan),
        CommandM::Invite(_, _) => Err(ErrM::NotImplemented("INVITE"@)),
        CommandM::Kick(_, _, _) => Err(ErrM::NotImplemented("KICK"@)),
        CommandM::Who(_) => Err(ErrM::NotImplemented("WHO"@)),
        CommandM::WhoisUser(_) => Err(ErrM::NotImplemented("WHOIS"@)),
        CommandM::WhoisServer(_) => Err(ErrM::NotImplemented("WHOIS"@)),
        CommandM::WhoisOperator(_) => Err(ErrM::NotImplemented("WHOIS"@)),
        CommandM::WhoisIdle(_) => Err(ErrM::NotImplemented("WHOIS"@)),
        CommandM::WhoisChannels(_) => Err(ErrM::NotImplemented("WHOIS"@)),
        CommandM::WhoisAuth(_) => Err(ErrM::NotImplemented("WHOIS"@)),
        CommandM::Whowas(_, _, _) => Err(ErrM::NotImplemented("WHOWAS"@)),
        CommandM::Cap(sub, _) => spec_cap(s, id, sub),
    }
}

} // verus!
