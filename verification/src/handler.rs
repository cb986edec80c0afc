//! The executable command processor: applies one parsed command against the
//! registries and returns the addressed reply lines, exactly as the spec
//! transitions in `proto` say.
use vstd::prelude::*;
use vstd::string::StrSliceExecFns;
use vstd::string::StringExecFns;

use crate::parser::Command;
use crate::proto::ErrM;
use crate::proto::err_message;
use crate::proto::display_nick;
use crate::proto::spec_apply;
use crate::proto::spec_nick;
use crate::proto::spec_user;
use crate::proto::spec_cap;
use crate::proto::spec_pong;
use crate::render::line_pong;
use crate::state::ServerState;
use crate::strings::str_eq;
use crate::strings::usize_to_string;
use crate::user::User;
use crate::user::UserM;

verus! {

/// A command's typed failure, exactly one case per kind in `ErrM`.
#[derive(Debug, Clone, PartialEq)]
pub enum ServerError {
    SessionNotFound,
    ChannelNotFound(String),
    UserNotFound(String),
    NotOnChannel,
    InvalidNickname,
    UnknownCapSubcommand(String),
    NotImplemented(String),
}

impl View for ServerError {
    type V = ErrM;

    open spec fn view(&self) -> ErrM {
        match self {
            ServerError::SessionNotFound => ErrM::SessionNotFound,
            ServerError::ChannelNotFound(c) => ErrM::ChannelNotFound(c@),
            ServerError::UserNotFound(u) => ErrM::UserNotFound(u@),
            ServerError::NotOnChannel => ErrM::NotOnChannel,
            ServerError::InvalidNickname => ErrM::InvalidNickname,
            ServerError::UnknownCapSubcommand(s) => ErrM::UnknownCapSubcommand(s@),
            ServerError::NotImplemented(v) => ErrM::NotImplemented(v@),
        }
    }
}

impl ServerError {
    /// The line of text the transport shows for this error.
    pub fn message(&self) -> (r: String)
        ensures
            r@ == err_message(self@),
    {
        match self {
            ServerError::SessionNotFound => String::from_str("User not found"),
            ServerError::ChannelNotFound(c) => {
                let mut s = String::from_str("Channel ");
                s.append(c.as_str());
                s.append(" not found");
                proof {
                    assert(s@ =~= err_message(self@));
                }
                s
            },
            ServerError::UserNotFound(u) => {
                let mut s = String::from_str("User ");
                s.append(u.as_str());
                s.append(" not found");
                proof {
                    assert(s@ =~= err_message(self@));
                }
                s
            },
            ServerError::NotOnChannel => String::from_str("You're not on that channel"),
            ServerError::InvalidNickname => String::from_str("Invalid nickname"),
            ServerError::UnknownCapSubcommand(c) => {
                let mut s = String::from_str("Unknown CAP subcommand: ");
                s.append(c.as_str());
                proof {
                    assert(s@ =~= err_message(self@));
                }
                s
            },
            ServerError::NotImplemented(v) => {
                let mut s = v.clone();
                s.append(" command not implemented yet");
                proof {
                    assert(s@ =~= err_message(self@));
                }
                s
            },
        }
    }
}

/// The model of a delivery list: each line as its character sequence.
pub open spec fn msgs_view(v: Seq<(usize, String)>) -> Seq<(usize, Seq<char>)> {
    Seq::new(v.len(), |i: int| (v[i].0, v[i].1@))
}

/// How the session is shown: its nickname, or its id in decimal.
fn nick_of(u: &User) -> (r: String)
    ensures
        r@ == display_nick(u@),
{
    match &u.nickname {
        Some(n) => n.clone(),
        None => usize_to_string(u.id),
    }
}

fn handle_nick(client_id: usize, nickname: String, state: &mut ServerState) -> (r: Result<
    Vec<(usize, String)>,
    ServerError,
>)
    requires
        old(state).wf(),
    ensures
        final(state).wf(),
        match spec_nick(old(state)@, client_id, nickname@) {
            Ok((s2, ms)) => r matches Ok(v) && final(state)@ == s2 && msgs_view(v@) == ms,
            Err(e) => r matches Err(er) && er@ == e && final(state)@ == old(state)@,
        },
{
    let si = match state.session_index(client_id) {
        Some(si) => si,
        None => {
            return Err(ServerError::SessionNotFound);
        },
    };
    proof {
        crate::state::lemma_sess_idx(state@.sessions, client_id);
    }
    let old_nick: String = match &state.sessions[si].nickname {
        Some(n) => n.clone(),
        None => String::from_str("<unknown>"),
    };
    let ghost pre_user = state@.sessions[si as int];
    let u = &mut state.sessions[si];
    let set_result = u.set_nickname(nickname.clone());
    match set_result {
        Err(_) => {
            proof {
                assert(state@.sessions =~= old(state)@.sessions);
                assert(state@ == old(state)@);
            }
            Err(ServerError::InvalidNickname)
        },
        Ok(_) => {
            let line = crate::render::render_nick(old_nick.as_str(), nickname.as_str());
            let mut v: Vec<(usize, String)> = Vec::new();
            v.push((client_id, line));
            proof {
                assert(state@.sessions =~= old(state)@.sessions.update(
                    si as int,
                    UserM { nickname: Some(nickname@), ..pre_user },
                ));
                assert(state@ == spec_nick(old(state)@, client_id, nickname@)->Ok_0.0);
                crate::proto::lemma_wf_upd_session(
                    old(state)@,
                    si as int,
                    UserM { nickname: Some(nickname@), ..pre_user },
                );
                assert(msgs_view(v@) =~= spec_nick(old(state)@, client_id, nickname@)->Ok_0.1);
            }
            Ok(v)
        },
    }
}

fn handle_user(client_id: usize, username: String, realname: String, state: &mut ServerState) -> (r:
    Result<Vec<(usize, String)>, ServerError>)
    requires
        old(state).wf(),
    ensures
        final(state).wf(),
        match spec_user(old(state)@, client_id, username@, realname@) {
            Ok((s2, ms)) => r matches Ok(v) && final(state)@ == s2 && msgs_view(v@) == ms,
            Err(e) => r matches Err(er) && er@ == e && final(state)@ == old(state)@,
        },
{
    let si = match state.session_index(client_id) {
        Some(si) => si,
        None => {
            return Err(ServerError::SessionNotFound);
        },
    };
    proof {
        crate::state::lemma_sess_idx(state@.sessions, client_id);
    }
    let nick: String = match &state.sessions[si].nickname {
        Some(n) => n.clone(),
        None => {
            let mut s = String::from_str("User");
            let digits = usize_to_string(client_id);
            s.append(digits.as_str());
            s
        },
    };
    let count = state.sessions.len();
    let ghost pre_user = state@.sessions[si as int];
    let u = &mut state.sessions[si];
    u.username = Some(username);
    u.realname = Some(realname);
    let ghost post_user = UserM {
        username: Some(username@),
        realname: Some(realname@),
        ..pre_user
    };
    proof {
        assert(u@ == post_user);
    }
    let mut v: Vec<(usize, String)> = Vec::new();
    v.push((client_id, crate::render::render_welcome(nick.as_str())));
    v.push((client_id, crate::render::render_your_host(nick.as_str())));
    v.push((client_id, crate::render::render_created(nick.as_str(), state.created.as_str())));
    v.push((client_id, crate::render::render_server_info(nick.as_str())));
    v.push((client_id, crate::render::render_options(nick.as_str())));
    v.push((client_id, crate::render::render_user_count(nick.as_str(), count)));
    proof {
        assert(state@.sessions =~= old(state)@.sessions.update(si as int, post_user));
        assert(state@ == spec_user(old(state)@, client_id, username@, realname@)->Ok_0.0);
        crate::proto::lemma_wf_upd_session(old(state)@, si as int, post_user);
        assert(msgs_view(v@) =~= spec_user(old(state)@, client_id, username@, realname@)->Ok_0.1);
    }
    Ok(v)
}

fn handle_ping(client_id: usize, token: String) -> (r: Result<Vec<(usize, String)>, ServerError>)
    ensures
        r matches Ok(v) && msgs_view(v@) == seq![(client_id, line_pong(token@))],
{
    let mut v: Vec<(usize, String)> = Vec::new();
    v.push((client_id, crate::render::render_pong(token.as_str())));
    proof {
        assert(msgs_view(v@) =~= seq![(client_id, line_pong(token@))]);
    }
    Ok(v)
}

fn handle_pong(client_id: usize, state: &ServerState) -> (r: Result<
    Vec<(usize, String)>,
    ServerError,
>)
    ensures
        match spec_pong(state@, client_id) {
            Ok((s2, ms)) => r matches Ok(v) && msgs_view(v@) == ms,
            Err(e) => r matches Err(er) && er@ == e,
        },
{
    match state.session_index(client_id) {
        Some(_) => {
            let v: Vec<(usize, String)> = Vec::new();
            proof {
                assert(msgs_view(v@) =~= Seq::<(usize, Seq<char>)>::empty());
            }
            Ok(v)
        },
        None => Err(ServerError::SessionNotFound),
    }
}

fn handle_cap(client_id: usize, subcommand: String, state: &ServerState) -> (r: Result<
    Vec<(usize, String)>,
    ServerError,
>)
    ensures
        match spec_cap(state@, client_id, subcommand@) {
            Ok((s2, ms)) => r matches Ok(v) && msgs_view(v@) == ms,
            Err(e) => r matches Err(er) && er@ == e,
        },
{
    if str_eq(subcommand.as_str(), "LS") {
        let mut v: Vec<(usize, String)> = Vec::new();
        v.push((client_id, crate::render::render_cap_ls()));
        proof {
            assert(msgs_view(v@) =~= seq![(client_id, crate::render::line_cap_ls())]);
        }
        Ok(v)
    } else if str_eq(subcommand.as_str(), "REQ") {
        let mut v: Vec<(usize, String)> = Vec::new();
        v.push((client_id, crate::render::render_cap_ack()));
        proof {
            assert(msgs_view(v@) =~= seq![(client_id, crate::render::line_cap_ack())]);
        }
        Ok(v)
    } else if str_eq(subcommand.as_str(), "END") {
        let v: Vec<(usize, String)> = Vec::new();
        proof {
            assert(msgs_view(v@) =~= Seq::<(usize, Seq<char>)>::empty());
        }
        Ok(v)
    } else {
        Err(ServerError::UnknownCapSubcommand(subcommand))
    }
}


/// The space-separated nicks of the given members, in order.
fn nicks_of(state: &ServerState, members: &Vec<usize>) -> (r: String)
    ensures
        r@ == crate::proto::nicks_list(state@.sessions, members@),
{
    let mut s = String::new();
    let n = members.len();
    let mut i: usize = 0;
    while i < n
        invariant
            n == members@.len(),
            i <= n,
            s@ == crate::proto::nicks_list(state@.sessions, members@.take(i as int)),
        decreases n - i,
    {
        let m = members[i];
        let sidx = state.session_index(m);
        proof {
            crate::state::lemma_sess_idx(state@.sessions, m);
        }
        let nick: String = match sidx {
            Some(si) => nick_of(&state.sessions[si]),
            None => usize_to_string(m),
        };
        proof {
            assert(nick@ == crate::proto::member_nick(state@.sessions, m));
        }
        if i > 0 {
            s.append(" ");
        }
        s.append(nick.as_str());
        proof {
            let sess = state@.sessions;
            let pre = members@.take(i as int);
            let cur = members@.take(i as int + 1);
            assert(cur.drop_last() =~= pre);
            assert(cur.last() == members@[i as int]);
            if i == 0 {
                assert(cur.len() == 1);
                assert(cur[0] == members@[0]);
                assert(s@ =~= crate::proto::nicks_list(sess, cur));
            } else {
                assert(cur.len() > 1);
                assert(s@ =~= crate::proto::nicks_list(sess, cur));
            }
        }
        i = i + 1;
    }
    proof {
        assert(members@.take(n as int) =~= members@);
    }
    s
}

fn handle_topic(
    client_id: usize,
    channel_name: String,
    topic: Option<String>,
    state: &mut ServerState,
) -> (r: Result<Vec<(usize, String)>, ServerError>)
    requires
        old(state).wf(),
    ensures
        final(state).wf(),
        match crate::proto::spec_topic(old(state)@, client_id, channel_name@, topic.deep_view()) {
            Ok((s2, ms)) => r matches Ok(v) && final(state)@ == s2 && msgs_view(v@) == ms,
            Err(e) => r matches Err(er) && er@ == e && final(state)@ == old(state)@,
        },
{
    let ci = match state.channel_index(channel_name.as_str()) {
        Some(ci) => ci,
        None => {
            return Err(ServerError::ChannelNotFound(channel_name));
        },
    };
    proof {
        crate::state::lemma_chan_idx(state@.channels, channel_name@);
    }
    let si = match state.session_index(client_id) {
        Some(si) => si,
        None => {
            return Err(ServerError::SessionNotFound);
        },
    };
    proof {
        crate::state::lemma_sess_idx(state@.sessions, client_id);
    }
    let nick = nick_of(&state.sessions[si]);
    match topic {
        Some(text) => {
            let line = crate::render::render_topic_set(
                nick.as_str(),
                channel_name.as_str(),
                text.as_str(),
            );
            let ghost pre_chan = state@.channels[ci as int];
            let c = &mut state.channels[ci];
            c.set_topic(text);
            proof {
                let post_chan = crate::channel::ChannelM { topic: Some(text@), ..pre_chan };
                assert(state@.channels =~= old(state)@.channels.update(ci as int, post_chan));
                assert(state@ == crate::proto::spec_topic(
                    old(state)@,
                    client_id,
                    channel_name@,
                    Some(text@),
                )->Ok_0.0);
                crate::proto::lemma_wf_upd_channel(old(state)@, ci as int, post_chan);
            }
            let mut v: Vec<(usize, String)> = Vec::new();
            v.push((client_id, line));
            proof {
                assert(msgs_view(v@) =~= seq![
                    (
                        client_id,
                        crate::render::line_topic_set(nick@, channel_name@, text@),
                    ),
                ]);
            }
            Ok(v)
        },
        None => {
            let line = match &state.channels[ci].topic {
                Some(t) => crate::render::render_topic_is(
                    nick.as_str(),
                    channel_name.as_str(),
                    t.as_str(),
                ),
                None => crate::render::render_topic_none(nick.as_str(), channel_name.as_str()),
            };
            let mut v: Vec<(usize, String)> = Vec::new();
            v.push((client_id, line));
            proof {
                assert(msgs_view(v@) =~= crate::proto::spec_topic(
                    old(state)@,
                    client_id,
                    channel_name@,
                    None,
                )->Ok_0.1);
            }
            Ok(v)
        },
    }
}

fn handle_names(channel_name: String, client_id: usize, state: &ServerState) -> (r: Result<
    Vec<(usize, String)>,
    ServerError,
>)
    ensures
        match crate::proto::spec_names(state@, client_id, channel_name@) {
            Ok((s2, ms)) => r matches Ok(v) && msgs_view(v@) == ms,
            Err(e) => r matches Err(er) && er@ == e,
        },
{
    let ci = match state.channel_index(channel_name.as_str()) {
        Some(ci) => ci,
        None => {
            return Err(ServerError::ChannelNotFound(channel_name));
        },
    };
    proof {
        crate::state::lemma_chan_idx(state@.channels, channel_name@);
    }
    let list = nicks_of(state, &state.channels[ci].members);
    let mut v: Vec<(usize, String)> = Vec::new();
    v.push((client_id, crate::render::render_names("*", channel_name.as_str(), list.as_str())));
    v.push((client_id, crate::render::render_names_end("*", channel_name.as_str())));
    proof {
        assert(msgs_view(v@) =~= crate::proto::spec_names(state@, client_id, channel_name@)->Ok_0.1);
    }
    Ok(v)
}

fn handle_list(channel: Option<String>, client_id: usize, state: &ServerState) -> (r: Result<
    Vec<(usize, String)>,
    ServerError,
>)
    ensures
        match crate::proto::spec_list(state@, client_id, channel.deep_view()) {
            Ok((s2, ms)) => r matches Ok(v) && msgs_view(v@) == ms,
            Err(e) => r matches Err(er) && er@ == e,
        },
{
    match channel {
        Some(channel_name) => {
            let ci = match state.channel_index(channel_name.as_str()) {
                Some(ci) => ci,
                None => {
                    return Err(ServerError::ChannelNotFound(channel_name));
                },
            };
            proof {
                crate::state::lemma_chan_idx(state@.channels, channel_name@);
            }
            let topic_str: String = match &state.channels[ci].topic {
                Some(t) => t.clone(),
                None => String::new(),
            };
            let mut v: Vec<(usize, String)> = Vec::new();
            v.push((client_id, crate::render::render_list_head()));
            v.push(
                (
                    client_id,
                    crate::render::render_list_row(
                        channel_name.as_str(),
                        state.channels[ci].members.len(),
                        topic_str.as_str(),
                    ),
                ),
            );
            v.push((client_id, crate::render::render_list_end()));
            proof {
                assert(msgs_view(v@) =~= crate::proto::spec_list(
                    state@,
                    client_id,
                    Some(channel_name@),
                )->Ok_0.1);
            }
            Ok(v)
        },
        None => {
            let mut v: Vec<(usize, String)> = Vec::new();
            v.push((client_id, crate::render::render_list_head()));
            let n = state.channels.len();
            let mut i: usize = 0;
            while i < n
                invariant
                    n == state@.channels.len(),
                    i <= n,
                    msgs_view(v@) == seq![(client_id, crate::render::line_list_head())]
                        + crate::proto::list_rows(state@.channels.take(i as int), client_id),
                decreases n - i,
            {
                let topic_str: String = match &state.channels[i].topic {
                    Some(t) => t.clone(),
                    None => String::new(),
                };
                let row = crate::render::render_list_row(
                    state.channels[i].name.as_str(),
                    state.channels[i].members.len(),
                    topic_str.as_str(),
                );
                let ghost vpre = v@;
                v.push((client_id, row));
                proof {
                    assert forall|j: int| 0 <= j < vpre.len() implies msgs_view(v@)[j]
                        == msgs_view(vpre)[j] by {
                        assert(v@[j] == vpre[j]);
                    }
                    assert(msgs_view(v@) =~= msgs_view(vpre).push((client_id, row@)));
                    let pre = state@.channels.take(i as int);
                    let cur = state@.channels.take(i as int + 1);
                    assert(cur.drop_last() =~= pre);
                    assert(state@.channels[i as int] == state.channels@[i as int]@);
                    assert(cur.last() == state@.channels[i as int]);
                    assert(topic_str@ == crate::proto::topic_or_empty(
                        state@.channels[i as int].topic,
                    ));
                    assert(row@ == crate::render::line_list_row(
                        cur.last().name,
                        cur.last().members.len(),
                        crate::proto::topic_or_empty(cur.last().topic),
                    ));
                    assert(crate::proto::list_rows(cur, client_id) =~= crate::proto::list_rows(
                        pre,
                        client_id,
                    ) + seq![
                        (
                            client_id,
                            crate::render::line_list_row(
                                cur.last().name,
                                cur.last().members.len(),
                                crate::proto::topic_or_empty(cur.last().topic),
                            ),
                        ),
                    ]);
                    assert(msgs_view(v@) =~= seq![(client_id, crate::render::line_list_head())]
                        + crate::proto::list_rows(cur, client_id));
                }
                i = i + 1;
            }
            v.push((client_id, crate::render::render_list_end()));
            proof {
                assert(state@.channels.take(n as int) =~= state@.channels);
                assert(msgs_view(v@) =~= crate::proto::spec_list(state@, client_id, None)->Ok_0.1);
            }
            Ok(v)
        },
    }
}


fn handle_privmsg(client_id: usize, target: String, message: String, state: &ServerState) -> (r:
    Result<Vec<(usize, String)>, ServerError>)
    ensures
        match crate::proto::spec_privmsg(state@, client_id, target@, message@) {
            Ok((s2, ms)) => r matches Ok(v) && msgs_view(v@) == ms,
            Err(e) => r matches Err(er) && er@ == e,
        },
{
    let si = match state.session_index(client_id) {
        Some(si) => si,
        None => {
            return Err(ServerError::SessionNotFound);
        },
    };
    proof {
        crate::state::lemma_sess_idx(state@.sessions, client_id);
    }
    let nick = nick_of(&state.sessions[si]);
    let is_channel = !target.as_str().is_empty() && target.as_str().get_char(0) == '#';
    if is_channel {
        let ci = match state.channel_index(target.as_str()) {
            Some(ci) => ci,
            None => {
                return Err(ServerError::ChannelNotFound(target));
            },
        };
        proof {
            crate::state::lemma_chan_idx(state@.channels, target@);
            assert(state@.channels[ci as int] == state.channels@[ci as int]@);
        }
        if !state.channels[ci].has_member(client_id) {
            return Err(ServerError::NotOnChannel);
        }
        let line = crate::render::render_privmsg(
            nick.as_str(),
            target.as_str(),
            message.as_str(),
        );
        let ghost members = state@.channels[ci as int].members;
        let mut v: Vec<(usize, String)> = Vec::new();
        let n = state.channels[ci].members.len();
        let mut i: usize = 0;
        while i < n
            invariant
                n == members.len(),
                members == state@.channels[ci as int].members,
                ci < state@.channels.len(),
                i <= n,
                msgs_view(v@) == crate::proto::fanout(
                    members.take(i as int),
                    client_id,
                    line@,
                ),
                line@ == crate::render::line_privmsg(nick@, target@, message@),
            decreases n - i,
        {
            let m = state.channels[ci].members[i];
            let ghost vpre = v@;
            if m != client_id {
                v.push((m, line.clone()));
            }
            proof {
                let pre = members.take(i as int);
                let cur = members.take(i as int + 1);
                assert(cur.drop_last() =~= pre);
                assert(cur.last() == members[i as int]);
                if m != client_id {
                    assert forall|j: int| 0 <= j < vpre.len() implies msgs_view(v@)[j]
                        == msgs_view(vpre)[j] by {
                        assert(v@[j] == vpre[j]);
                    }
                    assert(msgs_view(v@) =~= msgs_view(vpre).push((m, line@)));
                    assert(msgs_view(v@) =~= crate::proto::fanout(cur, client_id, line@));
                } else {
                    assert(msgs_view(v@) =~= crate::proto::fanout(cur, client_id, line@));
                }
            }
            i = i + 1;
        }
        proof {
            assert(members.take(n as int) =~= members);
        }
        Ok(v)
    } else {
        let ti = match state.nickname_index(target.as_str()) {
            Some(ti) => ti,
            None => {
                return Err(ServerError::UserNotFound(target));
            },
        };
        proof {
            crate::state::lemma_nick_idx(state@.sessions, target@);
            assert(state@.sessions[ti as int] == state.sessions@[ti as int]@);
        }
        let line = crate::render::render_privmsg(
            nick.as_str(),
            target.as_str(),
            message.as_str(),
        );
        let mut v: Vec<(usize, String)> = Vec::new();
        v.push((state.sessions[ti].id, line));
        proof {
            assert(msgs_view(v@) =~= crate::proto::spec_privmsg(
                state@,
                client_id,
                target@,
                message@,
            )->Ok_0.1);
        }
        Ok(v)
    }
}

fn handle_part(client_id: usize, channel_name: String, state: &mut ServerState) -> (r: Result<
    Vec<(usize, String)>,
    ServerError,
>)
    requires
        old(state).wf(),
    ensures
        final(state).wf(),
        match crate::proto::spec_part(old(state)@, client_id, channel_name@) {
            Ok((s2, ms)) => r matches Ok(v) && final(state)@ == s2 && msgs_view(v@) == ms,
            Err(e) => r matches Err(er) && er@ == e && final(state)@ == old(state)@,
        },
{
    let si = match state.session_index(client_id) {
        Some(si) => si,
        None => {
            return Err(ServerError::SessionNotFound);
        },
    };
    proof {
        crate::state::lemma_sess_idx(state@.sessions, client_id);
    }
    let ci = match state.channel_index(channel_name.as_str()) {
        Some(ci) => ci,
        None => {
            return Err(ServerError::ChannelNotFound(channel_name));
        },
    };
    proof {
        crate::state::lemma_chan_idx(state@.channels, channel_name@);
    }
    let nick = nick_of(&state.sessions[si]);
    let ghost pre = state@;
    let c = &mut state.channels[ci];
    c.remove_member(&client_id);
    proof {
        assert(state@.channels =~= pre.channels.update(
            ci as int,
            crate::channel::ChannelM {
                members: pre.channels[ci as int].members.remove_value(client_id),
                ..pre.channels[ci as int]
            },
        ));
    }
    if state.channels[ci].members.is_empty() {
        state.channels.remove(ci);
        proof {
            assert(state@.channels =~= pre.channels.remove(ci as int));
        }
    }
    let u = &mut state.sessions[si];
    u.leave_channel(channel_name.as_str());
    proof {
        assert(state@.sessions =~= pre.sessions.update(
            si as int,
            UserM {
                channels: pre.sessions[si as int].channels.remove_value(channel_name@),
                ..pre.sessions[si as int]
            },
        ));
        assert(state@ == crate::proto::spec_part(pre, client_id, channel_name@)->Ok_0.0);
        crate::proto::lemma_wf_part(pre, client_id, channel_name@);
    }
    let mut v: Vec<(usize, String)> = Vec::new();
    v.push((client_id, crate::render::render_part(nick.as_str(), channel_name.as_str())));
    proof {
        assert(msgs_view(v@) =~= crate::proto::spec_part(pre, client_id, channel_name@)->Ok_0.1);
    }
    Ok(v)
}

/// Removes `client_id` from every channel's member list, deleting channels
/// thereby emptied.
fn purge_member(state: &mut ServerState, client_id: usize)
    ensures
        final(state)@ == (crate::state::StateM {
            channels: crate::proto::channels_without(old(state)@.channels, client_id),
            ..old(state)@
        }),
{
    let ghost orig = state@.channels;
    let mut ci: usize = 0;
    let ghost mut k: int = 0;
    while ci < state.channels.len()
        invariant
            0 <= k <= orig.len(),
            state@.channels == crate::proto::channels_without(orig.take(k), client_id)
                + orig.skip(k),
            ci == crate::proto::channels_without(orig.take(k), client_id).len(),
            state@.sessions == old(state)@.sessions,
            state@.next_id == old(state)@.next_id,
            state@.created == old(state)@.created,
            orig == old(state)@.channels,
        decreases orig.len() - k,
    {
        proof {
            assert(state@.channels.len() == ci + (orig.len() - k));
            assert(k < orig.len());
            assert(state@.channels[ci as int] == orig.skip(k)[0]);
            assert(orig.skip(k)[0] == orig[k]);
        }
        let ghost chans_pre = state@.channels;
        let c = &mut state.channels[ci];
        c.remove_member(&client_id);
        proof {
            assert(state@.channels =~= chans_pre.update(
                ci as int,
                crate::proto::without_member(orig[k], client_id),
            ));
        }
        let ghost cw_pre = crate::proto::channels_without(orig.take(k), client_id);
        let ghost left = crate::proto::without_member(orig[k], client_id);
        proof {
            assert(orig.take(k + 1).drop_last() =~= orig.take(k));
            assert(orig.take(k + 1).last() == orig[k]);
            assert(crate::proto::channels_without(orig.take(k + 1), client_id) == cw_pre + (
            if left.members.len() == 0 {
                Seq::<crate::channel::ChannelM>::empty()
            } else {
                seq![left]
            }));
        }
        if state.channels[ci].members.is_empty() {
            proof {
                assert(state@.channels[ci as int] == left);
                assert(left.members.len() == 0);
            }
            state.channels.remove(ci);
            proof {
                k = k + 1;
                assert(orig.skip(k - 1).subrange(1, orig.skip(k - 1).len() as int) =~= orig.skip(
                    k,
                ));
                assert(crate::proto::channels_without(orig.take(k), client_id) == cw_pre
                    + Seq::<crate::channel::ChannelM>::empty());
                assert(cw_pre + Seq::<crate::channel::ChannelM>::empty() =~= cw_pre);
                assert(state@.channels == chans_pre.update(ci as int, left).remove(ci as int));
                assert(chans_pre == cw_pre + orig.skip(k - 1));
                assert forall|j: int| 0 <= j < state@.channels.len() implies state@.channels[j]
                    == (cw_pre + orig.skip(k))[j] by {
                    if j < ci {
                        assert(state@.channels[j] == chans_pre[j]);
                    } else {
                        assert(state@.channels[j] == chans_pre[j + 1]);
                        assert(chans_pre[j + 1] == orig.skip(k - 1)[j + 1 - ci]);
                        assert(orig.skip(k - 1)[j + 1 - ci] == orig[k + j - ci]);
                        assert((cw_pre + orig.skip(k))[j] == orig.skip(k)[j - ci]);
                        assert(orig.skip(k)[j - ci] == orig[k + j - ci]);
                    }
                }
                assert(state@.channels =~= cw_pre + orig.skip(k));
                assert(state@.channels =~= crate::proto::channels_without(
                    orig.take(k),
                    client_id,
                ) + orig.skip(k));
            }
        } else {
            ci = ci + 1;
            proof {
                k = k + 1;
                assert(cw_pre + seq![left] =~= crate::proto::channels_without(
                    orig.take(k),
                    client_id,
                ));
                assert(state@.channels =~= crate::proto::channels_without(
                    orig.take(k),
                    client_id,
                ) + orig.skip(k));
            }
        }
    }
    proof {
        assert(state@.channels.len() == ci + (orig.len() - k));
        assert(k == orig.len());
        assert(orig.take(k) =~= orig);
        assert(orig.skip(k) =~= Seq::<crate::channel::ChannelM>::empty());
        assert(state@.channels =~= crate::proto::channels_without(orig, client_id));
    }
}

fn handle_quit(client_id: usize, message: Option<String>, state: &mut ServerState) -> (r: Result<
    Vec<(usize, String)>,
    ServerError,
>)
    requires
        old(state).wf(),
    ensures
        final(state).wf(),
        match crate::proto::spec_quit(old(state)@, client_id, message.deep_view()) {
            Ok((s2, ms)) => r matches Ok(v) && final(state)@ == s2 && msgs_view(v@) == ms,
            Err(e) => r matches Err(er) && er@ == e && final(state)@ == old(state)@,
        },
{
    let si = match state.session_index(client_id) {
        Some(si) => si,
        None => {
            return Err(ServerError::SessionNotFound);
        },
    };
    proof {
        crate::state::lemma_sess_idx(state@.sessions, client_id);
    }
    let nick = nick_of(&state.sessions[si]);
    let reason: String = match message {
        Some(m) => m,
        None => String::from_str("Client Quit"),
    };
    let ghost pre = state@;
    purge_member(state, client_id);
    state.sessions.remove(si);
    proof {
        assert(state@.sessions =~= pre.sessions.remove(si as int));
        assert(state@ == crate::proto::spec_remove_session(pre, client_id));
        crate::proto::lemma_wf_remove_session(pre, client_id);
    }
    let mut v: Vec<(usize, String)> = Vec::new();
    v.push((client_id, crate::render::render_quit(nick.as_str(), reason.as_str())));
    proof {
        assert(msgs_view(v@) =~= crate::proto::spec_quit(
            pre,
            client_id,
            message.deep_view(),
        )->Ok_0.1);
    }
    Ok(v)
}

/// Tears a session down on transport close: removes it from the registry
/// and from every channel, deleting channels thereby emptied. Doing it for
/// an unknown id changes nothing, so teardown is idempotent.
pub fn remove_session(state: &mut ServerState, client_id: usize)
    requires
        old(state).wf(),
    ensures
        final(state).wf(),
        final(state)@ == crate::proto::spec_remove_session(old(state)@, client_id),
{
    let si = match state.session_index(client_id) {
        Some(si) => si,
        None => {
            return ;
        },
    };
    proof {
        crate::state::lemma_sess_idx(state@.sessions, client_id);
    }
    let ghost pre = state@;
    purge_member(state, client_id);
    state.sessions.remove(si);
    proof {
        assert(state@.sessions =~= pre.sessions.remove(si as int));
        assert(state@ == crate::proto::spec_remove_session(pre, client_id));
        crate::proto::lemma_wf_remove_session(pre, client_id);
    }
}


fn handle_join(client_id: usize, channel_name: String, state: &mut ServerState) -> (r: Result<
    Vec<(usize, String)>,
    ServerError,
>)
    requires
        old(state).wf(),
    ensures
        final(state).wf(),
        match crate::proto::spec_join(old(state)@, client_id, channel_name@) {
            Ok((s2, ms)) => r matches Ok(v) && final(state)@ == s2 && msgs_view(v@) == ms,
            Err(e) => r matches Err(er) && er@ == e && final(state)@ == old(state)@,
        },
{
    let si = match state.session_index(client_id) {
        Some(si) => si,
        None => {
            return Err(ServerError::SessionNotFound);
        },
    };
    proof {
        crate::state::lemma_sess_idx(state@.sessions, client_id);
    }
    let nick = nick_of(&state.sessions[si]);
    let ghost pre = state@;
    let found = state.channel_index(channel_name.as_str());
    proof {
        crate::state::lemma_chan_idx(pre.channels, channel_name@);
    }
    let ci: usize = match found {
        Some(ci) => {
            let ghost pre_chan = pre.channels[ci as int];
            let c = &mut state.channels[ci];
            c.add_member(client_id);
            proof {
                let members_after = if pre_chan.members.contains(client_id) {
                    pre_chan.members
                } else {
                    pre_chan.members.push(client_id)
                };
                assert(state@.channels =~= pre.channels.update(
                    ci as int,
                    crate::channel::ChannelM { members: members_after, ..pre_chan },
                ));
            }
            ci
        },
        None => {
            let n = state.channels.len();
            let mut pos: usize = 0;
            while pos < n && !crate::strings::str_lt(
                channel_name.as_str(),
                state.channels[pos].name.as_str(),
            )
                invariant
                    pos <= n,
                    n == state@.channels.len(),
                    state@ == pre,
                    forall|j: int|
                        0 <= j < pos ==> !crate::strings::lex_lt(
                            channel_name@,
                            (#[trigger] state@.channels[j]).name,
                        ),
                decreases n - pos,
            {
                proof {
                    assert(state@.channels[pos as int] == state.channels@[pos as int]@);
                }
                pos = pos + 1;
            }
            proof {
                if pos < n {
                    assert(state@.channels[pos as int] == state.channels@[pos as int]@);
                }
                crate::proto::lemma_insert_pos_is(pre.channels, channel_name@, pos as int);
            }
            let mut ch = crate::channel::Channel::new(channel_name.clone());
            ch.add_member(client_id);
            proof {
                assert(ch@.members =~= seq![client_id]);
            }
            state.channels.insert(pos, ch);
            proof {
                assert(state@.channels =~= pre.channels.insert(
                    crate::proto::insert_pos(pre.channels, channel_name@),
                    crate::channel::ChannelM {
                        name: channel_name@,
                        members: seq![client_id],
                        topic: None,
                        key: None,
                    },
                ));
            }
            pos
        },
    };
    let ghost members_after = state@.channels[ci as int].members;
    let u = &mut state.sessions[si];
    u.join_channel(channel_name.clone());
    proof {
        assert(state@.sessions =~= pre.sessions.update(
            si as int,
            UserM {
                channels: if pre.sessions[si as int].channels.contains(channel_name@) {
                    pre.sessions[si as int].channels
                } else {
                    pre.sessions[si as int].channels.push(channel_name@)
                },
                ..pre.sessions[si as int]
            },
        ));
        assert(state@ == crate::proto::spec_join(pre, client_id, channel_name@)->Ok_0.0);
        crate::proto::lemma_wf_join(pre, client_id, channel_name@);
    }
    let list = nicks_of(state, &state.channels[ci].members);
    let ghost base = seq![
        (client_id, crate::render::line_join(nick@, channel_name@)),
        (client_id, crate::render::line_names(nick@, channel_name@, list@)),
        (client_id, crate::render::line_names_end(nick@, channel_name@)),
    ];
    let mut v: Vec<(usize, String)> = Vec::new();
    v.push((client_id, crate::render::render_join(nick.as_str(), channel_name.as_str())));
    v.push(
        (
            client_id,
            crate::render::render_names(nick.as_str(), channel_name.as_str(), list.as_str()),
        ),
    );
    v.push((client_id, crate::render::render_names_end(nick.as_str(), channel_name.as_str())));
    proof {
        assert(msgs_view(v@) =~= base + crate::proto::join_notices(
            state@.sessions,
            members_after.take(0),
            channel_name@,
            list@,
            client_id,
        ));
    }
    let n = state.channels[ci].members.len();
    let mut i: usize = 0;
    while i < n
        invariant
            i <= n,
            ci < state@.channels.len(),
            n == members_after.len(),
            members_after == state@.channels[ci as int].members,
            list@ == crate::proto::nicks_list(state@.sessions, members_after),
            msgs_view(v@) == base + crate::proto::join_notices(
                state@.sessions,
                members_after.take(i as int),
                channel_name@,
                list@,
                client_id,
            ),
        decreases n - i,
    {
        let m = state.channels[ci].members[i];
        proof {
            assert(members_after.take(i as int + 1).drop_last() =~= members_after.take(i as int));
            assert(members_after.take(i as int + 1).last() == members_after[i as int]);
        }
        if m != client_id {
            let sidx = state.session_index(m);
            proof {
                crate::state::lemma_sess_idx(state@.sessions, m);
            }
            match sidx {
                Some(sj) => {
                    let mn = nick_of(&state.sessions[sj]);
                    let ghost vpre = v@;
                    v.push(
                        (
                            m,
                            crate::render::render_names(
                                mn.as_str(),
                                channel_name.as_str(),
                                list.as_str(),
                            ),
                        ),
                    );
                    v.push((m, crate::render::render_names_end(mn.as_str(), channel_name.as_str())));
                    proof {
                        assert forall|j: int| 0 <= j < vpre.len() implies msgs_view(v@)[j]
                            == msgs_view(vpre)[j] by {
                            assert(v@[j] == vpre[j]);
                        }
                        assert(msgs_view(v@) =~= msgs_view(vpre) + seq![
                            (
                                m,
                                crate::render::line_names(mn@, channel_name@, list@),
                            ),
                            (m, crate::render::line_names_end(mn@, channel_name@)),
                        ]);
                        assert(msgs_view(v@) =~= base + crate::proto::join_notices(
                            state@.sessions,
                            members_after.take(i as int + 1),
                            channel_name@,
                            list@,
                            client_id,
                        ));
                    }
                },
                None => {
                    proof {
                        assert(msgs_view(v@) =~= base + crate::proto::join_notices(
                            state@.sessions,
                            members_after.take(i as int + 1),
                            channel_name@,
                            list@,
                            client_id,
                        ));
                    }
                },
            }
        } else {
            proof {
                assert(msgs_view(v@) =~= base + crate::proto::join_notices(
                    state@.sessions,
                    members_after.take(i as int + 1),
                    channel_name@,
                    list@,
                    client_id,
                ));
            }
        }
        i = i + 1;
    }
    proof {
        assert(members_after.take(n as int) =~= members_after);
        assert(msgs_view(v@) =~= crate::proto::spec_join(pre, client_id, channel_name@)->Ok_0.1);
    }
    Ok(v)
}

/// Applies one command for the acting session against the registries,
/// returning the addressed reply lines or the typed error, exactly as
/// `spec_apply` says.
pub fn handle_command(command: Command, client_id: usize, state: &mut ServerState) -> (r: Result<
    Vec<(usize, String)>,
    ServerError,
>)
    requires
        old(state).wf(),
    ensures
        final(state).wf(),
        match spec_apply(old(state)@, command@, client_id) {
            Ok((s2, ms)) => r matches Ok(v) && final(state)@ == s2 && msgs_view(v@) == ms,
            Err(e) => r matches Err(er) && er@ == e && final(state)@ == old(state)@,
        },
{
    match command {
        Command::Nick(nickname) => handle_nick(client_id, nickname, state),
        Command::User(username, _mode, realname) => handle_user(
            client_id,
            username,
            realname,
            state,
        ),
        Command::Join(channel) => handle_join(client_id, channel, state),
        Command::Part(channel) => handle_part(client_id, channel, state),
        Command::PrivMsg(target, message) => handle_privmsg(client_id, target, message, state),
        Command::Quit(message) => handle_quit(client_id, message, state),
        Command::Ping(token) => handle_ping(client_id, token),
        Command::Pong(_) => handle_pong(client_id, state),
        Command::Mode(_, _, _) => Err(ServerError::NotImplemented(String::from_str("MODE"))),
        Command::Topic(channel, topic) => handle_topic(client_id, channel, topic, state),
        Command::Names(channel) => handle_names(channel, client_id, state),
        Command::List(channel) => handle_list(channel, client_id, state),
        Command::Invite(_, _) => Err(ServerError::NotImplemented(String::from_str("INVITE"))),
        Command::Kick(_, _, _) => Err(ServerError::NotImplemented(String::from_str("KICK"))),
        Command::Who(_) => Err(ServerError::NotImplemented(String::from_str("WHO"))),
        Command::WhoisUser(_) => Err(ServerError::NotImplemented(String::from_str("WHOIS"))),
        Command::WhoisServer(_) => Err(ServerError::NotImplemented(String::from_str("WHOIS"))),
        Command::WhoisOperator(_) => Err(ServerError::NotImplemented(String::from_str("WHOIS"))),
        Command::WhoisIdle(_) => Err(ServerError::NotImplemented(String::from_str("WHOIS"))),
        Command::WhoisChannels(_) => Err(ServerError::NotImplemented(String::from_str("WHOIS"))),
        Command::WhoisAuth(_) => Err(ServerError::NotImplemented(String::from_str("WHOIS"))),
        Command::Whowas(_, _, _) => Err(ServerError::NotImplemented(String::from_str("WHOWAS"))),
        Command::Cap(subcommand, _param) => handle_cap(client_id, subcommand, state),
    }
}

/// One inbound line, end to end: parse it, apply it, and render any failure
/// as a single ERROR line to the sender; an unparseable line is dropped
/// without a reply and without any change.
pub fn process_line(line: &str, client_id: usize, state: &mut ServerState) -> (r: Vec<
    (usize, String),
>)
    requires
        old(state).wf(),
    ensures
        final(state).wf(),
        match crate::parser::spec_parse(line@) {
            None => final(state)@ == old(state)@ && r@.len() == 0,
            Some(cmd) => match spec_apply(old(state)@, cmd, client_id) {
                Ok((s2, ms)) => final(state)@ == s2 && msgs_view(r@) == ms,
                Err(e) => final(state)@ == old(state)@ && msgs_view(r@) == seq![
                    (client_id, crate::render::line_error(err_message(e))),
                ],
            },
        },
{
    match crate::parser::parse_command(line) {
        None => Vec::new(),
        Some(command) => match handle_command(command, client_id, state) {
            Ok(v) => v,
            Err(e) => {
                let text = e.message();
                let mut v: Vec<(usize, String)> = Vec::new();
                v.push((client_id, crate::render::render_error(text.as_str())));
                proof {
                    assert(msgs_view(v@) =~= seq![
                        (client_id, crate::render::line_error(err_message(e@))),
                    ]);
                }
                v
            },
        },
    }
}

} // verus!
