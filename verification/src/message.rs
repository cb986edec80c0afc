//! A directed message: sender, recipient and content, stamped with the time
//! it was created.
use vstd::prelude::*;

verus! {

/// Where a message is addressed: one session, or one channel.
#[derive(Debug, Clone)]
pub enum Recipient {
    User(usize),
    Channel(String),
}

/// Mathematical model of a [`Recipient`].
pub enum RecipientM {
    User(usize),
    Channel(Seq<char>),
}

impl View for Recipient {
    type V = RecipientM;

    open spec fn view(&self) -> RecipientM {
        match self {
            Recipient::User(id) => RecipientM::User(*id),
            Recipient::Channel(name) => RecipientM::Channel(name@),
        }
    }
}

/// A message in flight, with the Unix time it was created.
#[derive(Debug)]
pub struct Message {
    pub sender_id: usize,
    pub recipient: Recipient,
    pub content: String,
    pub timestamp: i64,
}

impl Message {
    /// A new message stamped with the current time; the stamp comes from the
    /// wall clock, so nothing is promised of it.
    pub fn new(sender_id: usize, recipient: Recipient, content: String) -> (r: Message)
        ensures
            r.sender_id == sender_id,
            r.recipient@ == recipient@,
            r.content@ == content@,
    {
        Message { sender_id, recipient, content, timestamp: crate::clock::unix_timestamp() }
    }
}

} // verus!
