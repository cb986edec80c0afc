//! A group-messaging channel: its name, member sessions, optional topic and
//! optional key.
use vstd::prelude::*;

verus! {

/// Mathematical model of a [`Channel`].
pub struct ChannelM {
    pub name: Seq<char>,
    pub members: Seq<usize>,
    pub topic: Option<Seq<char>>,
    pub key: Option<Seq<char>>,
}

/// A named channel with its member session ids, kept free of duplicates.
#[derive(Debug)]
pub struct Channel {
    pub name: String,
    pub members: Vec<usize>,
    pub topic: Option<String>,
    pub key: Option<String>,
}

impl View for Channel {
    type V = ChannelM;

    open spec fn view(&self) -> ChannelM {
        ChannelM {
            name: self.name@,
            members: self.members@,
            topic: self.topic.deep_view(),
            key: self.key.deep_view(),
        }
    }
}

impl DeepView for Channel {
    type V = ChannelM;

    open spec fn deep_view(&self) -> ChannelM {
        self.view()
    }
}

impl Channel {
    /// An empty channel of the given name, with no topic and no key.
    pub fn new(name: String) -> (r: Channel)
        ensures
            r@ == (ChannelM {
                name: name@,
                members: Seq::empty(),
                topic: None,
                key: None,
            }),
    {
        let r = Channel { name, members: Vec::new(), topic: None, key: None };
        proof {
            assert(r@.members =~= Seq::<usize>::empty());
        }
        r
    }

    /// Whether `user_id` is a member.
    pub fn has_member(&self, user_id: usize) -> (r: bool)
        ensures
            r == self@.members.contains(user_id),
    {
        let n = self.members.len();
        let mut i: usize = 0;
        while i < n
            invariant
                n == self@.members.len(),
                i <= n,
                forall|j: int| 0 <= j < i ==> self@.members[j] != user_id,
            decreases n - i,
        {
            if self.members[i] == user_id {
                return true;
            }
            i = i + 1;
        }
        false
    }

    /// Adds `user_id` to the members; adding a present member changes nothing.
    pub fn add_member(&mut self, user_id: usize)
        ensures
            final(self)@ == (ChannelM {
                members: if old(self)@.members.contains(user_id) {
                    old(self)@.members
                } else {
                    old(self)@.members.push(user_id)
                },
                ..old(self)@
            }),
    {
        if !self.has_member(user_id) {
            self.members.push(user_id);
        }
    }

    /// Removes `user_id` from the members, if present.
    pub fn remove_member(&mut self, user_id: &usize)
        ensures
            final(self)@ == (ChannelM {
                members: old(self)@.members.remove_value(*user_id),
                ..old(self)@
            }),
    {
        let target = *user_id;
        let n = self.members.len();
        let mut i: usize = 0;
        let mut found: Option<usize> = None;
        while i < n
            invariant
                n == self@.members.len(),
                i <= n,
                match found {
                    Some(k) => k == i && i < n && self@.members[k as int] == target && forall|
                        j: int,
                    | 0 <= j < k ==> self@.members[j] != target,
                    None => forall|j: int| 0 <= j < i ==> self@.members[j] != target,
                },
            ensures
                match found {
                    Some(k) => k < n && self@.members[k as int] == target && forall|j: int|
                        0 <= j < k ==> self@.members[j] != target,
                    None => forall|j: int| 0 <= j < n ==> self@.members[j] != target,
                },
            decreases n - i,
        {
            if self.members[i] == target {
                found = Some(i);
                break;
            }
            i = i + 1;
        }
        proof {
            let ms = self@.members;
            ms.index_of_first_ensures(target);
            match found {
                Some(k) => {
                    match ms.index_of_first(target) {
                        Some(f) => {
                            if f < k as int {
                                assert(ms[f] != target);
                            } else if f > k as int {
                                assert(ms[k as int] != target);
                            }
                            assert(f == k as int);
                        },
                        None => {
                            assert(!ms.contains(target));
                            assert(ms[k as int] == target);
                        },
                    }
                },
                None => {
                    if ms.contains(target) {
                        let w = choose|w: int| 0 <= w < ms.len() && ms[w] == target;
                        assert(ms[w] != target);
                    }
                },
            }
        }
        match found {
            Some(k) => {
                self.members.remove(k);
            },
            None => {},
        }
    }

    /// Sets the topic.
    pub fn set_topic(&mut self, topic: String)
        ensures
            final(self)@ == (ChannelM { topic: Some(topic@), ..old(self)@ }),
    {
        self.topic = Some(topic);
    }

    /// Sets or clears the key.
    pub fn set_key(&mut self, key: Option<String>)
        ensures
            final(self)@ == (ChannelM { key: key.deep_view(), ..old(self)@ }),
    {
        self.key = key;
    }
}

} // verus!
