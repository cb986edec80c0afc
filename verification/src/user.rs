//! A session's server-side state: identity, nickname, joined channels and
//! presence status.
use vstd::prelude::*;
use vstd::string::StrSliceExecFns;

verus! {

/// Whether `c` counts as alphanumeric for nickname validation. Stands for
/// what `char::is_alphanumeric` returns on `c`, a pure predicate of the
/// character alone.
pub uninterp spec fn is_unicode_alphanumeric(c: char) -> bool;

/// Relies on `char::is_alphanumeric` (std): true exactly when the character
/// has a Unicode number or letter general category; depends on the character
/// alone.
pub assume_specification[ char::is_alphanumeric ](c: char) -> (r: bool)
    ensures
        r == is_unicode_alphanumeric(c),
;

/// Presence of a session: online, or away with an optional reason.
#[derive(Debug, Clone, PartialEq)]
pub enum UserStatus {
    Online,
    Away(Option<String>),
}

/// Mathematical model of a [`UserStatus`].
pub enum StatusM {
    Online,
    Away(Option<Seq<char>>),
}

impl View for UserStatus {
    type V = StatusM;

    open spec fn view(&self) -> StatusM {
        match self {
            UserStatus::Online => StatusM::Online,
            UserStatus::Away(m) => StatusM::Away(m.deep_view()),
        }
    }
}

/// Mathematical model of a [`User`].
pub struct UserM {
    pub id: usize,
    pub nickname: Option<Seq<char>>,
    pub username: Option<Seq<char>>,
    pub realname: Option<Seq<char>>,
    pub host: Seq<char>,
    pub channels: Seq<Seq<char>>,
    pub status: StatusM,
}

/// One connected client's registered state.
#[derive(Debug, Clone)]
pub struct User {
    pub id: usize,
    pub nickname: Option<String>,
    pub username: Option<String>,
    pub realname: Option<String>,
    pub host: String,
    pub channels: Vec<String>,
    pub status: UserStatus,
}

impl View for User {
    type V = UserM;

    open spec fn view(&self) -> UserM {
        UserM {
            id: self.id,
            nickname: self.nickname.deep_view(),
            username: self.username.deep_view(),
            realname: self.realname.deep_view(),
            host: self.host@,
            channels: self.channels.deep_view(),
            status: self.status@,
        }
    }
}

impl DeepView for User {
    type V = UserM;

    open spec fn deep_view(&self) -> UserM {
        self.view()
    }
}

/// A character a nickname may contain: alphanumeric, `-` or `_`.
pub open spec fn nick_char_ok(c: char) -> bool {
    is_unicode_alphanumeric(c) || c == '-' || c == '_'
}

/// A valid nickname: at least one character, at most 20 bytes in its UTF-8
/// encoding, every character alphanumeric, `-` or `_`.
pub open spec fn nick_ok(s: Seq<char>) -> bool {
    &&& s.len() >= 1
    &&& vstd::utf8::encode_utf8(s).len() <= 20
    &&& forall|i: int| 0 <= i < s.len() ==> nick_char_ok(#[trigger] s[i])
}

impl User {
    /// A freshly accepted session: no identity yet, online, in no channel.
    pub fn new(id: usize, host: String) -> (r: User)
        ensures
            r@ == (UserM {
                id: id,
                nickname: None,
                username: None,
                realname: None,
                host: host@,
                channels: Seq::empty(),
                status: StatusM::Online,
            }),
    {
        let r = User {
            id,
            nickname: None,
            username: None,
            realname: None,
            host,
            channels: Vec::new(),
            status: UserStatus::Online,
        };
        proof {
            assert(r@.channels =~= Seq::<Seq<char>>::empty());
        }
        r
    }

    /// The remote address the session connected from.
    pub fn get_host(&self) -> (r: &String)
        ensures
            r@ == self@.host,
    {
        &self.host
    }

    /// Sets the nickname; succeeds exactly on valid nicknames and changes
    /// nothing otherwise.
    pub fn set_nickname(&mut self, nickname: String) -> (r: Result<(), &'static str>)
        ensures
            r is Ok <==> nick_ok(nickname@),
            r is Ok ==> final(self)@ == (UserM { nickname: Some(nickname@), ..old(self)@ }),
            r is Err ==> *final(self) == *old(self) && r->Err_0@ == "Invalid nickname"@,
    {
        if nickname.as_str().is_empty() || nickname.as_str().as_bytes().len() > 20 {
            return Err("Invalid nickname");
        }
        let s = nickname.as_str();
        let n = s.unicode_len();
        let mut i: usize = 0;
        while i < n
            invariant
                n == s@.len(),
                s@ == nickname@,
                i <= n,
                forall|j: int| 0 <= j < i ==> nick_char_ok(#[trigger] s@[j]),
            decreases n - i,
        {
            let c = s.get_char(i);
            if !(c.is_alphanumeric() || c == '-' || c == '_') {
                return Err("Invalid nickname");
            }
            i = i + 1;
        }
        self.nickname = Some(nickname);
        Ok(())
    }

    /// Records membership of `channel`; joining an already joined channel
    /// changes nothing.
    pub fn join_channel(&mut self, channel: String)
        ensures
            final(self)@ == (UserM {
                channels: if old(self)@.channels.contains(channel@) {
                    old(self)@.channels
                } else {
                    old(self)@.channels.push(channel@)
                },
                ..old(self)@
            }),
    {
        let mut found = false;
        let n = self.channels.len();
        let mut i: usize = 0;
        while i < n
            invariant
                n == self.channels@.len(),
                i <= n,
                *self == *old(self),
                found <==> exists|j: int| 0 <= j < i && self@.channels[j] == channel@,
            decreases n - i,
        {
            if crate::strings::str_eq(self.channels[i].as_str(), channel.as_str()) {
                proof {
                    assert(self@.channels[i as int] == self.channels@[i as int]@);
                }
                found = true;
            }
            i = i + 1;
        }
        if !found {
            proof {
                assert(forall|j: int|
                    0 <= j < old(self)@.channels.len() ==> #[trigger] old(self)@.channels[j]
                        != channel@);
            }
            self.channels.push(channel);
            proof {
                assert(self@.channels =~= old(self)@.channels.push(channel@));
            }
        }
    }

    /// Removes membership of `channel`, if present.
    pub fn leave_channel(&mut self, channel: &str)
        ensures
            final(self)@ == (UserM { channels: old(self)@.channels.remove_value(channel@), ..old(self)@ }),
    {
        let n = self.channels.len();
        let mut i: usize = 0;
        while i < n
            invariant
                n == self.channels@.len(),
                i <= n,
                *self == *old(self),
                forall|j: int| 0 <= j < i ==> #[trigger] self@.channels[j] != channel@,
            decreases n - i,
        {
            if crate::strings::str_eq(self.channels[i].as_str(), channel) {
                proof {
                    let cs = self@.channels;
                    assert(cs[i as int] == self.channels@[i as int]@);
                    cs.index_of_first_ensures(channel@);
                    match cs.index_of_first(channel@) {
                        Some(k) => {
                            if k < i as int {
                                assert(cs[k] != channel@);
                            } else if k > i as int {
                                assert(cs[i as int] != channel@);
                            }
                            assert(k == i as int);
                        },
                        None => {
                            assert(!cs.contains(channel@));
                            assert(cs[i as int] == channel@);
                        },
                    }
                }
                self.channels.remove(i);
                proof {
                    assert(self@.channels =~= old(self)@.channels.remove(i as int));
                }
                return;
            }
            i = i + 1;
        }
        proof {
            let cs = old(self)@.channels;
            cs.index_of_first_ensures(channel@);
            if cs.contains(channel@) {
                let k = choose|k: int| 0 <= k < cs.len() && cs[k] == channel@;
                assert(cs[k] != channel@);
            }
        }
    }

    /// Marks the session away, with an optional reason.
    pub fn set_away(&mut self, message: Option<String>)
        ensures
            final(self)@ == (UserM { status: StatusM::Away(message.deep_view()), ..old(self)@ }),
    {
        self.status = UserStatus::Away(message);
    }

    /// Marks the session online again.
    pub fn set_online(&mut self)
        ensures
            final(self)@ == (UserM { status: StatusM::Online, ..old(self)@ }),
    {
        self.status = UserStatus::Online;
    }
}

} // verus!
