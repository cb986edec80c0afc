//! The two registries — sessions and channels — held together with the id
//! counter and the server's creation date, plus the invariant tying them
//! together: unique session ids below the counter, channels sorted by name
//! and never empty, and membership recorded consistently on both sides.
use vstd::prelude::*;

use crate::channel::Channel;
use crate::channel::ChannelM;
use crate::strings::lex_lt;
use crate::user::User;
use crate::user::UserM;

verus! {

/// Mathematical model of a [`ServerState`].
pub struct StateM {
    pub sessions: Seq<UserM>,
    pub channels: Seq<ChannelM>,
    pub next_id: usize,
    pub created: Seq<char>,
}

/// Index of the first session with the given id, if any.
pub open spec fn sess_idx(sessions: Seq<UserM>, id: usize) -> Option<int>
    decreases sessions.len(),
{
    if sessions.len() == 0 {
        None
    } else if sessions[0].id == id {
        Some(0)
    } else {
        match sess_idx(sessions.drop_first(), id) {
            Some(i) => Some(i + 1),
            None => None,
        }
    }
}

pub proof fn lemma_sess_idx(sessions: Seq<UserM>, id: usize)
    ensures
        match sess_idx(sessions, id) {
            Some(i) => 0 <= i < sessions.len() && sessions[i].id == id && forall|j: int|
                0 <= j < i ==> (#[trigger] sessions[j]).id != id,
            None => forall|j: int| 0 <= j < sessions.len() ==> (#[trigger] sessions[j]).id != id,
        },
    decreases sessions.len(),
{
    if sessions.len() > 0 && sessions[0].id != id {
        lemma_sess_idx(sessions.drop_first(), id);
        assert(forall|j: int|
            1 <= j < sessions.len() ==> #[trigger] sessions[j] == sessions.drop_first()[j - 1]);
    }
}

/// A found first occurrence pins `sess_idx` down.
pub proof fn lemma_sess_idx_is(sessions: Seq<UserM>, id: usize, i: int)
    requires
        0 <= i < sessions.len(),
        sessions[i].id == id,
        forall|j: int| 0 <= j < i ==> (#[trigger] sessions[j]).id != id,
    ensures
        sess_idx(sessions, id) == Some(i),
{
    lemma_sess_idx(sessions, id);
    match sess_idx(sessions, id) {
        Some(k) => {
            if k < i {
                assert(sessions[k].id != id);
            } else if k > i {
                assert(sessions[i].id != id);
            }
        },
        None => {
            assert(sessions[i].id != id);
        },
    }
}

/// Index of the first channel with the given name, if any.
pub open spec fn chan_idx(channels: Seq<ChannelM>, name: Seq<char>) -> Option<int>
    decreases channels.len(),
{
    if channels.len() == 0 {
        None
    } else if channels[0].name == name {
        Some(0)
    } else {
        match chan_idx(channels.drop_first(), name) {
            Some(i) => Some(i + 1),
            None => None,
        }
    }
}

pub proof fn lemma_chan_idx(channels: Seq<ChannelM>, name: Seq<char>)
    ensures
        match chan_idx(channels, name) {
            Some(i) => 0 <= i < channels.len() && channels[i].name == name && forall|j: int|
                0 <= j < i ==> (#[trigger] channels[j]).name != name,
            None => forall|j: int|
                0 <= j < channels.len() ==> (#[trigger] channels[j]).name != name,
        },
    decreases channels.len(),
{
    if channels.len() > 0 && channels[0].name != name {
        lemma_chan_idx(channels.drop_first(), name);
        assert(forall|j: int|
            1 <= j < channels.len() ==> #[trigger] channels[j] == channels.drop_first()[j - 1]);
    }
}

/// A found first occurrence pins `chan_idx` down.
pub proof fn lemma_chan_idx_is(channels: Seq<ChannelM>, name: Seq<char>, i: int)
    requires
        0 <= i < channels.len(),
        channels[i].name == name,
        forall|j: int| 0 <= j < i ==> (#[trigger] channels[j]).name != name,
    ensures
        chan_idx(channels, name) == Some(i),
{
    lemma_chan_idx(channels, name);
    match chan_idx(channels, name) {
        Some(k) => {
            if k < i {
                assert(channels[k].name != name);
            } else if k > i {
                assert(channels[i].name != name);
            }
        },
        None => {
            assert(channels[i].name != name);
        },
    }
}

/// Index of the first session whose nickname is `nick`, if any.
pub open spec fn nick_idx(sessions: Seq<UserM>, nick: Seq<char>) -> Option<int>
    decreases sessions.len(),
{
    if sessions.len() == 0 {
        None
    } else if sessions[0].nickname == Some(nick) {
        Some(0)
    } else {
        match nick_idx(sessions.drop_first(), nick) {
            Some(i) => Some(i + 1),
            None => None,
        }
    }
}

pub proof fn lemma_nick_idx(sessions: Seq<UserM>, nick: Seq<char>)
    ensures
        match nick_idx(sessions, nick) {
            Some(i) => 0 <= i < sessions.len() && sessions[i].nickname == Some(nick) && forall|
                j: int,
            | 0 <= j < i ==> (#[trigger] sessions[j]).nickname != Some(nick),
            None => forall|j: int|
                0 <= j < sessions.len() ==> (#[trigger] sessions[j]).nickname != Some(nick),
        },
    decreases sessions.len(),
{
    if sessions.len() > 0 && sessions[0].nickname != Some(nick) {
        lemma_nick_idx(sessions.drop_first(), nick);
        assert(forall|j: int|
            1 <= j < sessions.len() ==> #[trigger] sessions[j] == sessions.drop_first()[j - 1]);
    }
}

/// A found first occurrence pins `nick_idx` down.
pub proof fn lemma_nick_idx_is(sessions: Seq<UserM>, nick: Seq<char>, i: int)
    requires
        0 <= i < sessions.len(),
        sessions[i].nickname == Some(nick),
        forall|j: int| 0 <= j < i ==> (#[trigger] sessions[j]).nickname != Some(nick),
    ensures
        nick_idx(sessions, nick) == Some(i),
{
    lemma_nick_idx(sessions, nick);
    match nick_idx(sessions, nick) {
        Some(k) => {
            if k < i {
                assert(sessions[k].nickname != Some(nick));
            } else if k > i {
                assert(sessions[i].nickname != Some(nick));
            }
        },
        None => {
            assert(sessions[i].nickname != Some(nick));
        },
    }
}

/// Session ids are unique, below the allocation counter, and each session's
/// channel list is free of duplicates.
pub open spec fn wf_sessions(s: StateM) -> bool {
    &&& forall|i: int, j: int|
        0 <= i < s.sessions.len() && 0 <= j < s.sessions.len() && i != j ==> (
        #[trigger] s.sessions[i]).id != (#[trigger] s.sessions[j]).id
    &&& forall|i: int| 0 <= i < s.sessions.len() ==> (#[trigger] s.sessions[i]).id < s.next_id
    &&& forall|i: int|
        0 <= i < s.sessions.len() ==> (#[trigger] s.sessions[i]).channels.no_duplicates()
}

/// Channels are strictly sorted by name (hence unique), never empty, and
/// each member list is free of duplicates.
pub open spec fn wf_channels(s: StateM) -> bool {
    &&& forall|i: int| 0 <= i < s.channels.len() ==> (#[trigger] s.channels[i]).members.len() >= 1
    &&& forall|i: int|
        0 <= i < s.channels.len() ==> (#[trigger] s.channels[i]).members.no_duplicates()
    &&& forall|i: int, j: int|
        0 <= i < j < s.channels.len() ==> lex_lt(
            (#[trigger] s.channels[i]).name,
            (#[trigger] s.channels[j]).name,
        )
}

/// Membership is recorded on both sides: every channel member is a live
/// session that lists the channel, and every channel a session lists exists
/// and contains that session.
pub open spec fn wf_links(s: StateM) -> bool {
    &&& forall|ci: int, mi: int|
        0 <= ci < s.channels.len() && 0 <= mi < s.channels[ci].members.len() ==> {
            let m = (#[trigger] s.channels[ci].members[mi]);
            match sess_idx(s.sessions, m) {
                Some(si) => s.sessions[si].channels.contains(s.channels[ci].name),
                None => false,
            }
        }
    &&& forall|si: int, cj: int|
        0 <= si < s.sessions.len() && 0 <= cj < s.sessions[si].channels.len() ==> {
            let nm = (#[trigger] s.sessions[si].channels[cj]);
            match chan_idx(s.channels, nm) {
                Some(ci) => s.channels[ci].members.contains(s.sessions[si].id),
                None => false,
            }
        }
}

/// The registries' full invariant.
pub open spec fn wf_state(s: StateM) -> bool {
    wf_sessions(s) && wf_channels(s) && wf_links(s)
}

/// Both registries, the id counter and the server's creation date.
pub struct ServerState {
    pub sessions: Vec<User>,
    pub channels: Vec<Channel>,
    pub next_id: usize,
    pub created: String,
}

impl View for ServerState {
    type V = StateM;

    open spec fn view(&self) -> StateM {
        StateM {
            sessions: self.sessions.deep_view(),
            channels: self.channels.deep_view(),
            next_id: self.next_id,
            created: self.created@,
        }
    }
}

impl ServerState {
    /// The registries' invariant, on the model of this state.
    pub open spec fn wf(&self) -> bool {
        wf_state(self@)
    }

    /// A fresh server: no sessions, no channels, ids start at 1, creation
    /// date read from the clock.
    pub fn new() -> (r: ServerState)
        ensures
            r.wf(),
            r@.sessions == Seq::<UserM>::empty(),
            r@.channels == Seq::<ChannelM>::empty(),
            r@.next_id == 1,
    {
        let r = ServerState {
            sessions: Vec::new(),
            channels: Vec::new(),
            next_id: 1,
            created: crate::clock::utc_date_string(),
        };
        proof {
            assert(r@.sessions =~= Seq::<UserM>::empty());
            assert(r@.channels =~= Seq::<ChannelM>::empty());
        }
        r
    }

    /// Draws the next session id; ids are handed out once each, in
    /// increasing order.
    pub fn generate_client_id(&mut self) -> (id: usize)
        requires
            old(self)@.next_id < usize::MAX,
        ensures
            id == old(self)@.next_id,
            final(self)@ == (StateM { next_id: (old(self)@.next_id + 1) as usize, ..old(self)@ }),
    {
        let id = self.next_id;
        self.next_id = self.next_id + 1;
        id
    }

    /// Creates a session for a newly accepted connection and returns its id.
    pub fn create_session(&mut self, host: String) -> (id: usize)
        requires
            old(self).wf(),
            old(self)@.next_id < usize::MAX,
        ensures
            final(self).wf(),
            id == old(self)@.next_id,
            final(self)@ == (StateM {
                sessions: old(self)@.sessions.push(UserM {
                    id: old(self)@.next_id,
                    nickname: None,
                    username: None,
                    realname: None,
                    host: host@,
                    channels: Seq::empty(),
                    status: crate::user::StatusM::Online,
                }),
                next_id: (old(self)@.next_id + 1) as usize,
                ..old(self)@
            }),
    {
        let id = self.generate_client_id();
        let user = User::new(id, host);
        self.sessions.push(user);
        proof {
            let pre = old(self)@;
            let post = self@;
            assert(post.sessions =~= pre.sessions.push(user@));
            assert forall|i: int, j: int|
                0 <= i < post.sessions.len() && 0 <= j < post.sessions.len() && i != j implies (
            #[trigger] post.sessions[i]).id != (#[trigger] post.sessions[j]).id by {
                if i < pre.sessions.len() && j < pre.sessions.len() {
                } else if i < pre.sessions.len() {
                    assert(pre.sessions[i].id < pre.next_id);
                } else if j < pre.sessions.len() {
                    assert(pre.sessions[j].id < pre.next_id);
                }
            }
            assert(wf_sessions(post));
            assert forall|ci: int, mi: int|
                0 <= ci < post.channels.len() && 0 <= mi
                    < post.channels[ci].members.len() implies {
                let m = (#[trigger] post.channels[ci].members[mi]);
                match sess_idx(post.sessions, m) {
                    Some(si) => post.sessions[si].channels.contains(post.channels[ci].name),
                    None => false,
                }
            } by {
                let m = post.channels[ci].members[mi];
                assert(post.channels[ci] == pre.channels[ci]);
                lemma_sess_idx(pre.sessions, m);
                match sess_idx(pre.sessions, m) {
                    Some(si) => {
                        lemma_sess_idx_is(post.sessions, m, si);
                    },
                    None => {},
                }
            }
            assert(wf_links(post));
        }
        id
    }

    /// Finds the session with the given id.
    pub fn session_index(&self, id: usize) -> (r: Option<usize>)
        ensures
            match r {
                Some(i) => sess_idx(self@.sessions, id) == Some(i as int),
                None => sess_idx(self@.sessions, id) is None,
            },
    {
        let n = self.sessions.len();
        let mut i: usize = 0;
        while i < n
            invariant
                n == self@.sessions.len(),
                i <= n,
                forall|j: int| 0 <= j < i ==> (#[trigger] self@.sessions[j]).id != id,
            decreases n - i,
        {
            if self.sessions[i].id == id {
                proof {
                    assert(self@.sessions[i as int] == self.sessions@[i as int]@);
                    lemma_sess_idx_is(self@.sessions, id, i as int);
                }
                return Some(i);
            }
            proof {
                assert(self@.sessions[i as int] == self.sessions@[i as int]@);
            }
            i = i + 1;
        }
        proof {
            lemma_sess_idx(self@.sessions, id);
            if sess_idx(self@.sessions, id) is Some {
                let k = sess_idx(self@.sessions, id)->0;
                assert(self@.sessions[k].id != id);
            }
        }
        None
    }

    /// Finds the channel with the given name.
    pub fn channel_index(&self, name: &str) -> (r: Option<usize>)
        ensures
            match r {
                Some(i) => chan_idx(self@.channels, name@) == Some(i as int),
                None => chan_idx(self@.channels, name@) is None,
            },
    {
        let n = self.channels.len();
        let mut i: usize = 0;
        while i < n
            invariant
                n == self@.channels.len(),
                i <= n,
                forall|j: int| 0 <= j < i ==> (#[trigger] self@.channels[j]).name != name@,
            decreases n - i,
        {
            if crate::strings::str_eq(self.channels[i].name.as_str(), name) {
                proof {
                    assert(self@.channels[i as int] == self.channels@[i as int]@);
                    lemma_chan_idx_is(self@.channels, name@, i as int);
                }
                return Some(i);
            }
            proof {
                assert(self@.channels[i as int] == self.channels@[i as int]@);
            }
            i = i + 1;
        }
        proof {
            lemma_chan_idx(self@.channels, name@);
            if chan_idx(self@.channels, name@) is Some {
                let k = chan_idx(self@.channels, name@)->0;
                assert(self@.channels[k].name != name@);
            }
        }
        None
    }

    /// Finds the first session registered under the given nickname.
    pub fn nickname_index(&self, nick: &str) -> (r: Option<usize>)
        ensures
            match r {
                Some(i) => nick_idx(self@.sessions, nick@) == Some(i as int),
                None => nick_idx(self@.sessions, nick@) is None,
            },
    {
        let n = self.sessions.len();
        let mut i: usize = 0;
        while i < n
            invariant
                n == self@.sessions.len(),
                i <= n,
                forall|j: int| 0 <= j < i ==> (#[trigger] self@.sessions[j]).nickname != Some(
                    nick@,
                ),
            decreases n - i,
        {
            let matches_nick = match &self.sessions[i].nickname {
                Some(s) => crate::strings::str_eq(s.as_str(), nick),
                None => false,
            };
            proof {
                assert(self@.sessions[i as int] == self.sessions@[i as int]@);
            }
            if matches_nick {
                proof {
                    lemma_nick_idx_is(self@.sessions, nick@, i as int);
                }
                return Some(i);
            }
            i = i + 1;
        }
        proof {
            lemma_nick_idx(self@.sessions, nick@);
            if nick_idx(self@.sessions, nick@) is Some {
                let k = nick_idx(self@.sessions, nick@)->0;
                assert(self@.sessions[k].nickname != Some(nick@));
            }
        }
        None
    }
}

} // verus!
