//! The library's laws: properties that relate several operations, each
//! stated over the spec transitions of `proto` and proved once and for all.
use vstd::prelude::*;

use crate::channel::ChannelM;
use crate::proto::spec_join;
use crate::proto::spec_part;
use crate::proto::spec_quit;
use crate::proto::spec_privmsg;
use crate::proto::spec_list;
use crate::proto::fanout;
use crate::proto::list_rows;
use crate::proto::insert_pos;
use crate::state::StateM;
use crate::state::chan_idx;
use crate::state::sess_idx;
use crate::state::wf_state;
use crate::strings::lex_lt;

verus! {

/// What one successful join does to the registries: session ids and count
/// are untouched, and the channel holds its old members plus the joiner —
/// exactly `seq![id]` when the channel is created.
pub proof fn lemma_join_effect(s: StateM, id: usize, chan: Seq<char>)
    requires
        wf_state(s),
        spec_join(s, id, chan) is Ok,
    ensures
        ({
            let s2 = spec_join(s, id, chan)->Ok_0.0;
            &&& s2.sessions.len() == s.sessions.len()
            &&& forall|j: int|
                0 <= j < s.sessions.len() ==> (#[trigger] s2.sessions[j]).id == s.sessions[j].id
            &&& match chan_idx(s.channels, chan) {
                Some(ci) => chan_idx(s2.channels, chan) == Some(ci) && s2.channels[ci]
                    == (ChannelM {
                    members: if s.channels[ci].members.contains(id) {
                        s.channels[ci].members
                    } else {
                        s.channels[ci].members.push(id)
                    },
                    ..s.channels[ci]
                }),
                None => chan_idx(s2.channels, chan) == Some(insert_pos(s.channels, chan))
                    && s2.channels[insert_pos(s.channels, chan)] == (ChannelM {
                    name: chan,
                    members: seq![id],
                    topic: None,
                    key: None,
                }),
            }
        }),
{
    crate::state::lemma_sess_idx(s.sessions, id);
    crate::state::lemma_chan_idx(s.channels, chan);
    let s2 = spec_join(s, id, chan)->Ok_0.0;
    match chan_idx(s.channels, chan) {
        Some(ci) => {
            assert forall|j: int| 0 <= j < s.channels.len() implies (
            #[trigger] s2.channels[j]).name == s.channels[j].name by {}
            crate::proto::lemma_chan_idx_same_names(s.channels, s2.channels);
        },
        None => {
            let pos = insert_pos(s.channels, chan);
            crate::proto::lemma_insert_pos(s.channels, chan);
            s.channels.insert_ensures(
                pos,
                ChannelM { name: chan, members: seq![id], topic: None, key: None },
            );
            assert(s2.channels[pos].name == chan);
            assert forall|j: int| 0 <= j < pos implies (#[trigger] s2.channels[j]).name
                != chan by {
                assert(s2.channels[j] == s.channels[j]);
            }
            crate::state::lemma_chan_idx_is(s2.channels, chan, pos);
        },
    }
}

/// Joining a channel one is already in changes nothing: applying JOIN twice
/// leaves the same registries as applying it once, so membership is not
/// duplicated and the member count stays.
pub proof fn lemma_join_idempotent(s: StateM, id: usize, chan: Seq<char>)
    requires
        wf_state(s),
        spec_join(s, id, chan) is Ok,
    ensures
        spec_join(spec_join(s, id, chan)->Ok_0.0, id, chan) is Ok,
        spec_join(spec_join(s, id, chan)->Ok_0.0, id, chan)->Ok_0.0 == spec_join(
            s,
            id,
            chan,
        )->Ok_0.0,
{
    crate::state::lemma_sess_idx(s.sessions, id);
    crate::state::lemma_chan_idx(s.channels, chan);
    let s1 = spec_join(s, id, chan)->Ok_0.0;
    lemma_join_effect(s, id, chan);
    crate::proto::lemma_wf_join(s, id, chan);
    let si = sess_idx(s.sessions, id)->0;
    assert(s1.sessions[si].id == id);
    crate::proto::lemma_sess_idx_same_ids(s.sessions, s1.sessions);
    assert(sess_idx(s1.sessions, id) == Some(si));
    let u1 = s1.sessions[si];
    assert(u1.channels.contains(chan)) by {
        let u = s.sessions[si];
        if u.channels.contains(chan) {
        } else {
            assert(u1.channels == u.channels.push(chan));
            assert(u1.channels[u.channels.len() as int] == chan);
        }
    }
    crate::state::lemma_chan_idx(s1.channels, chan);
    let ci1 = chan_idx(s1.channels, chan)->0;
    assert(0 <= ci1 < s1.channels.len());
    assert(s1.channels[ci1].members.contains(id)) by {
        match chan_idx(s.channels, chan) {
            Some(ci) => {
                let ms = s.channels[ci].members;
                if ms.contains(id) {
                } else {
                    assert(s1.channels[ci1].members == ms.push(id));
                    assert(ms.push(id)[ms.len() as int] == id);
                }
            },
            None => {
                assert(s1.channels[ci1].members == seq![id]);
                assert(s1.channels[ci1].members[0] == id);
            },
        }
    }
    let s2 = spec_join(s1, id, chan)->Ok_0.0;
    assert(s2.sessions =~= s1.sessions.update(si, u1));
    assert(s2.sessions =~= s1.sessions);
    assert(s2.channels =~= s1.channels.update(
        ci1,
        ChannelM { members: s1.channels[ci1].members, ..s1.channels[ci1] },
    ));
    assert((ChannelM { members: s1.channels[ci1].members, ..s1.channels[ci1] })
        == s1.channels[ci1]);
    assert(s2.channels =~= s1.channels);
}

/// After the last member parts, the channel is gone from the registry.
pub proof fn lemma_channel_gc_part(s: StateM, id: usize, chan: Seq<char>)
    requires
        wf_state(s),
        spec_part(s, id, chan) is Ok,
        s.channels[chan_idx(s.channels, chan)->0].members == seq![id],
    ensures
        chan_idx(spec_part(s, id, chan)->Ok_0.0.channels, chan) is None,
{
    crate::state::lemma_sess_idx(s.sessions, id);
    crate::state::lemma_chan_idx(s.channels, chan);
    let ci = chan_idx(s.channels, chan)->0;
    let ms = s.channels[ci].members;
    ms.index_of_first_ensures(id);
    assert(ms[0] == id);
    assert(ms.index_of_first(id) == Some(0int));
    assert(ms.remove_value(id) =~= Seq::<usize>::empty());
    let s1 = spec_part(s, id, chan)->Ok_0.0;
    assert(s1.channels == s.channels.remove(ci));
    crate::state::lemma_chan_idx(s1.channels, chan);
    match chan_idx(s1.channels, chan) {
        Some(k) => {
            let ok: int = if k < ci {
                k
            } else {
                k + 1
            };
            assert(s1.channels[k] == s.channels[ok]);
            assert(s.channels[ok].name == chan);
            assert(ok != ci);
            crate::strings::lemma_lex_lt_irrefl(chan);
        },
        None => {},
    }
}

/// After the last member quits, the channel is gone from the registry.
pub proof fn lemma_channel_gc_quit(s: StateM, id: usize, chan: Seq<char>)
    requires
        wf_state(s),
        spec_quit(s, id, None) is Ok,
        chan_idx(s.channels, chan) is Some,
        s.channels[chan_idx(s.channels, chan)->0].members == seq![id],
    ensures
        chan_idx(spec_quit(s, id, None)->Ok_0.0.channels, chan) is None,
{
    crate::state::lemma_sess_idx(s.sessions, id);
    crate::state::lemma_chan_idx(s.channels, chan);
    let ci = chan_idx(s.channels, chan)->0;
    let s1 = spec_quit(s, id, None)->Ok_0.0;
    let cw = crate::proto::channels_without(s.channels, id);
    assert(s1.channels == cw);
    crate::proto::lemma_cw_elems(s.channels, id);
    crate::state::lemma_chan_idx(cw, chan);
    match chan_idx(cw, chan) {
        Some(k) => {
            assert(crate::proto::cw_elem_sourced(s.channels, id, k));
            let i = choose|i: int|
                0 <= i < s.channels.len() && crate::proto::channels_without(s.channels, id)[k]
                    == crate::proto::without_member(s.channels[i], id)
                    && crate::proto::channels_without(s.channels, id)[k].members.len() >= 1;
            assert(cw[k].name == s.channels[i].name);
            assert(cw[k].name == chan);
            assert(i == ci) by {
                if i != ci {
                    if i < ci {
                        crate::strings::lemma_lex_lt_irrefl(chan);
                    } else {
                        crate::strings::lemma_lex_lt_irrefl(chan);
                    }
                }
            }
            let ms = s.channels[ci].members;
            ms.index_of_first_ensures(id);
            assert(ms[0] == id);
            assert(ms.index_of_first(id) == Some(0int));
            assert(ms.remove_value(id) =~= Seq::<usize>::empty());
            assert(cw[k].members.len() == 0);
        },
        None => {},
    }
}

/// A join of an absent channel creates it fresh: exactly the one member, no
/// topic and no stale state.
pub proof fn lemma_join_fresh(s: StateM, id: usize, chan: Seq<char>)
    requires
        wf_state(s),
        spec_join(s, id, chan) is Ok,
        chan_idx(s.channels, chan) is None,
    ensures
        ({
            let s2 = spec_join(s, id, chan)->Ok_0.0;
            let ci = chan_idx(s2.channels, chan);
            &&& ci is Some
            &&& s2.channels[ci->0].members == seq![id]
            &&& s2.channels[ci->0].topic is None
        }),
{
    lemma_join_effect(s, id, chan);
}


/// How many of the deliveries are addressed to `who`.
pub open spec fn count_to(ms: Seq<(usize, Seq<char>)>, who: usize) -> nat
    decreases ms.len(),
{
    if ms.len() == 0 {
        0
    } else {
        count_to(ms.drop_last(), who) + if ms.last().0 == who {
            1nat
        } else {
            0nat
        }
    }
}

/// Every fanned-out delivery goes to a member other than the sender and
/// carries the one line.
pub proof fn lemma_fanout_shape(members: Seq<usize>, sender: usize, line: Seq<char>)
    ensures
        forall|k: int|
            0 <= k < fanout(members, sender, line).len() ==> (#[trigger] fanout(
                members,
                sender,
                line,
            )[k]).0 != sender && members.contains(fanout(members, sender, line)[k].0) && fanout(
                members,
                sender,
                line,
            )[k].1 == line,
    decreases members.len(),
{
    if members.len() > 0 {
        let dl = members.drop_last();
        lemma_fanout_shape(dl, sender, line);
        let f = fanout(members, sender, line);
        let fd = fanout(dl, sender, line);
        assert forall|k: int| 0 <= k < f.len() implies (#[trigger] f[k]).0 != sender
            && members.contains(f[k].0) && f[k].1 == line by {
            if k < fd.len() {
                assert(f[k] == fd[k]);
                assert(dl.contains(fd[k].0));
                let w = choose|w: int| 0 <= w < dl.len() && dl[w] == fd[k].0;
                assert(members[w] == fd[k].0);
            } else {
                assert(f[k] == (members.last(), line));
                assert(members[members.len() - 1] == members.last());
            }
        }
    }
}

/// A channel message reaches every member but the sender exactly once.
pub proof fn lemma_fanout_count(members: Seq<usize>, sender: usize, line: Seq<char>, who: usize)
    requires
        members.no_duplicates(),
    ensures
        count_to(fanout(members, sender, line), who) == if members.contains(who) && who != sender {
            1nat
        } else {
            0nat
        },
    decreases members.len(),
{
    if members.len() == 0 {
        assert(!members.contains(who));
    } else {
        let dl = members.drop_last();
        lemma_fanout_count(dl, sender, line, who);
        let f = fanout(members, sender, line);
        let fd = fanout(dl, sender, line);
        let tail: Seq<(usize, Seq<char>)> = if members.last() == sender {
            Seq::empty()
        } else {
            seq![(members.last(), line)]
        };
        assert(f == fd + tail);
        lemma_count_to_add(fd, tail, who);
        assert(members[members.len() - 1] == members.last());
        if members.last() == who {
            assert(members.contains(who));
            assert(!dl.contains(who)) by {
                if dl.contains(who) {
                    let w = choose|w: int| 0 <= w < dl.len() && dl[w] == who;
                    assert(members[w] == who);
                }
            }
            if who != sender {
                assert(count_to(tail, who) == 1) by {
                    lemma_count_singleton((members.last(), line), who);
                }
            } else {
                assert(count_to(tail, who) == 0) by {
                    assert(count_to(Seq::<(usize, Seq<char>)>::empty(), who) == 0);
                }
            }
        } else {
            assert(count_to(tail, who) == 0) by {
                if members.last() != sender {
                    lemma_count_singleton((members.last(), line), who);
                } else {
                    assert(count_to(Seq::<(usize, Seq<char>)>::empty(), who) == 0);
                }
            }
            assert(members.contains(who) == dl.contains(who)) by {
                if members.contains(who) {
                    let w = choose|w: int| 0 <= w < members.len() && members[w] == who;
                    assert(w < dl.len());
                    assert(dl[w] == who);
                }
                if dl.contains(who) {
                    let w = choose|w: int| 0 <= w < dl.len() && dl[w] == who;
                    assert(members[w] == who);
                }
            }
        }
    }
}

proof fn lemma_count_singleton(d: (usize, Seq<char>), who: usize)
    ensures
        count_to(seq![d], who) == if d.0 == who {
            1nat
        } else {
            0nat
        },
{
    assert(seq![d].drop_last() =~= Seq::<(usize, Seq<char>)>::empty());
    assert(count_to(Seq::<(usize, Seq<char>)>::empty(), who) == 0);
    assert(seq![d].last() == d);
}

/// Counting distributes over concatenation.
pub proof fn lemma_count_to_add(a: Seq<(usize, Seq<char>)>, b: Seq<(usize, Seq<char>)>, who: usize)
    ensures
        count_to(a + b, who) == count_to(a, who) + count_to(b, who),
    decreases b.len(),
{
    if b.len() == 0 {
        assert(a + b =~= a);
    } else {
        assert((a + b).drop_last() =~= a + b.drop_last());
        assert((a + b).last() == b.last());
        lemma_count_to_add(a, b.drop_last(), who);
    }
}

/// PRIVMSG to a channel reaches every member except the sender exactly
/// once, and nothing reaches the sender; to a nickname it reaches exactly
/// the resolved session.
pub proof fn lemma_privmsg_deliveries(s: StateM, id: usize, target: Seq<char>, text: Seq<char>)
    requires
        wf_state(s),
        spec_privmsg(s, id, target, text) is Ok,
    ensures
        ({
            let ms = spec_privmsg(s, id, target, text)->Ok_0.1;
            if target.len() > 0 && target[0] == '#' {
                let members = s.channels[chan_idx(s.channels, target)->0].members;
                &&& forall|k: int| 0 <= k < ms.len() ==> (#[trigger] ms[k]).0 != id
                &&& forall|m: usize|
                    #[trigger] count_to(ms, m) == if members.contains(m) && m != id {
                        1nat
                    } else {
                        0nat
                    }
            } else {
                ms =~= seq![
                    (
                        s.sessions[crate::state::nick_idx(s.sessions, target)->0].id,
                        crate::render::line_privmsg(
                            crate::proto::display_nick(s.sessions[sess_idx(s.sessions, id)->0]),
                            target,
                            text,
                        ),
                    ),
                ]
            }
        }),
{
    crate::state::lemma_sess_idx(s.sessions, id);
    let si = sess_idx(s.sessions, id)->0;
    let nick = crate::proto::display_nick(s.sessions[si]);
    let line = crate::render::line_privmsg(nick, target, text);
    if target.len() > 0 && target[0] == '#' {
        crate::state::lemma_chan_idx(s.channels, target);
        let ci = chan_idx(s.channels, target)->0;
        let members = s.channels[ci].members;
        lemma_fanout_shape(members, id, line);
        assert forall|m: usize| #[trigger] count_to(
            spec_privmsg(s, id, target, text)->Ok_0.1,
            m,
        ) == if members.contains(m) && m != id {
            1nat
        } else {
            0nat
        } by {
            lemma_fanout_count(members, id, line, m);
        }
    }
}

/// The index shape of the LIST rows: one row per channel, in registry
/// order.
pub proof fn lemma_list_rows_index(channels: Seq<ChannelM>, to: usize)
    ensures
        list_rows(channels, to).len() == channels.len(),
        forall|k: int|
            0 <= k < channels.len() ==> #[trigger] list_rows(channels, to)[k] == (
                to,
                crate::render::line_list_row(
                    channels[k].name,
                    channels[k].members.len(),
                    crate::proto::topic_or_empty(channels[k].topic),
                ),
            ),
    decreases channels.len(),
{
    if channels.len() > 0 {
        let dl = channels.drop_last();
        lemma_list_rows_index(dl, to);
        assert forall|k: int| 0 <= k < channels.len() implies #[trigger] list_rows(channels, to)[k]
            == (
            to,
            crate::render::line_list_row(
                channels[k].name,
                channels[k].members.len(),
                crate::proto::topic_or_empty(channels[k].topic),
            ),
        ) by {
            if k < dl.len() {
                assert(list_rows(channels, to)[k] == list_rows(dl, to)[k]);
                assert(dl[k] == channels[k]);
            } else {
                assert(channels.last() == channels[k]);
            }
        }
    }
}

/// LIST with no argument always succeeds, returns one row per channel
/// between the fixed header and trailer, in the registry's order — which
/// the invariant keeps ascending by name — and, being a function of the
/// registries alone, is deterministic for identical state.
pub proof fn lemma_list_sorted(s: StateM, to: usize)
    requires
        wf_state(s),
    ensures
        spec_list(s, to, None) is Ok,
        spec_list(s, to, None)->Ok_0.0 == s,
        spec_list(s, to, None)->Ok_0.1.len() == s.channels.len() + 2,
        forall|k: int|
            0 <= k < s.channels.len() ==> #[trigger] spec_list(s, to, None)->Ok_0.1[k + 1] == (
                to,
                crate::render::line_list_row(
                    s.channels[k].name,
                    s.channels[k].members.len(),
                    crate::proto::topic_or_empty(s.channels[k].topic),
                ),
            ),
        forall|i: int, j: int|
            0 <= i < j < s.channels.len() ==> lex_lt(
                (#[trigger] s.channels[i]).name,
                (#[trigger] s.channels[j]).name,
            ),
{
    lemma_list_rows_index(s.channels, to);
    let ms = spec_list(s, to, None)->Ok_0.1;
    assert forall|k: int| 0 <= k < s.channels.len() implies #[trigger] ms[k + 1] == (
        to,
        crate::render::line_list_row(
            s.channels[k].name,
            s.channels[k].members.len(),
            crate::proto::topic_or_empty(s.channels[k].topic),
        ),
    ) by {
        assert(ms[k + 1] == list_rows(s.channels, to)[k]);
    }
}

/// A sequence of joins, one session after another, on one channel.
pub open spec fn apply_joins(s: StateM, ids: Seq<usize>, chan: Seq<char>) -> StateM
    decreases ids.len(),
{
    if ids.len() == 0 {
        s
    } else {
        match spec_join(s, ids[0], chan) {
            Ok(r) => apply_joins(r.0, ids.drop_first(), chan),
            Err(_) => apply_joins(s, ids.drop_first(), chan),
        }
    }
}

/// Joins by distinct live sessions, applied in any order the scheduler
/// serializes them in, lose nothing: the channel ends with its previous
/// members plus exactly one entry per joiner — on a previously nonexistent
/// channel, exactly the N joiners.
pub proof fn lemma_concurrent_joins(s: StateM, ids: Seq<usize>, chan: Seq<char>)
    requires
        wf_state(s),
        ids.no_duplicates(),
        forall|i: int| 0 <= i < ids.len() ==> sess_idx(s.sessions, #[trigger] ids[i]) is Some,
        match chan_idx(s.channels, chan) {
            Some(ci) => forall|i: int|
                0 <= i < ids.len() ==> !s.channels[ci].members.contains(#[trigger] ids[i]),
            None => true,
        },
    ensures
        ({
            let s2 = apply_joins(s, ids, chan);
            &&& wf_state(s2)
            &&& s2.sessions.len() == s.sessions.len()
            &&& forall|j: int|
                0 <= j < s.sessions.len() ==> (#[trigger] s2.sessions[j]).id == s.sessions[j].id
            &&& match chan_idx(s.channels, chan) {
                Some(ci) => chan_idx(s2.channels, chan) is Some && s2.channels[chan_idx(
                    s2.channels,
                    chan,
                )->0].members == s.channels[ci].members + ids,
                None => if ids.len() == 0 {
                    chan_idx(s2.channels, chan) is None
                } else {
                    chan_idx(s2.channels, chan) is Some && s2.channels[chan_idx(
                        s2.channels,
                        chan,
                    )->0].members == ids
                },
            }
        }),
    decreases ids.len(),
{
    crate::state::lemma_chan_idx(s.channels, chan);
    if ids.len() == 0 {
        match chan_idx(s.channels, chan) {
            Some(ci) => {
                assert(s.channels[ci].members + ids =~= s.channels[ci].members);
            },
            None => {},
        }
    } else {
        let first = ids[0];
        assert(sess_idx(s.sessions, first) is Some);
        assert(spec_join(s, first, chan) is Ok);
        let s1 = spec_join(s, first, chan)->Ok_0.0;
        lemma_join_effect(s, first, chan);
        crate::proto::lemma_wf_join(s, first, chan);
        crate::proto::lemma_sess_idx_same_ids(s.sessions, s1.sessions);
        let rest = ids.drop_first();
        assert(rest.no_duplicates());
        assert(forall|i: int| 0 <= i < rest.len() ==> #[trigger] rest[i] == ids[i + 1]);
        assert forall|i: int|
            0 <= i < rest.len() implies sess_idx(s1.sessions, #[trigger] rest[i]) is Some by {
            assert(sess_idx(s1.sessions, rest[i]) == sess_idx(s.sessions, rest[i]));
            assert(sess_idx(s.sessions, ids[i + 1]) is Some);
        }
        crate::state::lemma_chan_idx(s1.channels, chan);
        let ci1 = chan_idx(s1.channels, chan)->0;
        let prior1 = s1.channels[ci1].members;
        match chan_idx(s.channels, chan) {
            Some(ci) => {
                let prior = s.channels[ci].members;
                assert(!prior.contains(first));
                assert(prior1 == prior.push(first));
                assert forall|i: int|
                    0 <= i < rest.len() implies !prior1.contains(#[trigger] rest[i]) by {
                    assert(rest[i] == ids[i + 1]);
                    if prior1.contains(rest[i]) {
                        let w = choose|w: int| 0 <= w < prior1.len() && prior1[w] == rest[i];
                        if w < prior.len() {
                            assert(prior[w] == rest[i]);
                            assert(!prior.contains(ids[i + 1]));
                        } else {
                            assert(prior1[w] == first);
                        }
                    }
                }
                lemma_concurrent_joins(s1, rest, chan);
                let s2 = apply_joins(s1, rest, chan);
                assert(apply_joins(s, ids, chan) == s2);
                assert(s2.channels[chan_idx(s2.channels, chan)->0].members == prior1 + rest);
                assert(prior.push(first) + rest =~= prior + ids) by {
                    assert(ids =~= seq![first] + rest);
                }
            },
            None => {
                assert(prior1 == seq![first]);
                assert forall|i: int|
                    0 <= i < rest.len() implies !prior1.contains(#[trigger] rest[i]) by {
                    assert(rest[i] == ids[i + 1]);
                    if prior1.contains(rest[i]) {
                        let w = choose|w: int| 0 <= w < prior1.len() && prior1[w] == rest[i];
                        assert(prior1[w] == first);
                    }
                }
                lemma_concurrent_joins(s1, rest, chan);
                let s2 = apply_joins(s1, rest, chan);
                assert(apply_joins(s, ids, chan) == s2);
                assert(s2.channels[chan_idx(s2.channels, chan)->0].members == prior1 + rest);
                assert(seq![first] + rest =~= ids);
            },
        }
    }
}

} // verus!
