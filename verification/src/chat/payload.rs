//! What the chat server and its clients exchange: a user joined, a user left,
//! or a message, each with an identifier and the time it was made.
use vstd::prelude::*;
use crate::chat::timestamp::{Timestamp, naive_time_text, now, time_text};
use crate::random::{is_random_uuid, new_uuid};

verus! {

/// The name of a user who joined.
#[derive(Clone, PartialEq, Eq, Debug)]
pub struct UserInfo(pub String);

/// The name of a user who left.
#[derive(Clone, PartialEq, Eq, Debug)]
pub struct LeaveInfo(pub String);

/// A message's content, as JSON text, and the name of its sender.
#[derive(Clone, PartialEq, Eq, Debug)]
pub struct MessageInfo {
    pub content: String,
    pub sender: String,
}

/// What a payload says.
#[derive(Clone, PartialEq, Eq, Debug)]
pub enum PayloadInner {
    Joined(UserInfo),
    Left(LeaveInfo),
    Message(MessageInfo),
}

impl PayloadInner {
    /// The text a client shows for the payload. A departure reads as a
    /// joining too: `"{name} joined"`.
    pub open spec fn text(self) -> Seq<char> {
        match self {
            PayloadInner::Joined(info) => info.0@ + " joined"@,
            PayloadInner::Left(info) => info.0@ + " joined"@,
            PayloadInner::Message(msg) => msg.sender@ + ": "@ + msg.content@,
        }
    }

    pub fn new_joined(username: &str) -> (p: PayloadInner)
        ensures
            p matches PayloadInner::Joined(info) && info.0@ == username@,
    {
        PayloadInner::Joined(UserInfo(username.to_owned()))
    }

    pub fn new_left(username: &str) -> (p: PayloadInner)
        ensures
            p matches PayloadInner::Left(info) && info.0@ == username@,
    {
        PayloadInner::Left(LeaveInfo(username.to_owned()))
    }

    pub fn new_message(sender: &str, content: String) -> (p: PayloadInner)
        ensures
            p matches PayloadInner::Message(msg) && msg.sender@ == sender@ && msg.content@ == content@,
    {
        PayloadInner::Message(MessageInfo { content, sender: sender.to_owned() })
    }

    /// The text a client shows for the payload, as [`PayloadInner::text`] gives it.
    pub fn display(&self) -> (s: String)
        ensures
            s@ == self.text(),
    {
        match self {
            PayloadInner::Joined(info) => {
                let mut s = info.0.clone();
                s.append(" joined");
                proof {
                    reveal_strlit(" joined");
                }
                s
            },
            PayloadInner::Left(info) => {
                let mut s = info.0.clone();
                s.append(" joined");
                proof {
                    reveal_strlit(" joined");
                }
                s
            },
            PayloadInner::Message(msg) => {
                let mut s = msg.sender.clone();
                s.append(": ");
                s.append(msg.content.as_str());
                proof {
                    reveal_strlit(": ");
                }
                s
            },
        }
    }

    /// A copy equal to `self`.
    pub fn duplicate(&self) -> (p: PayloadInner)
        ensures
            p == *self,
    {
        match self {
            PayloadInner::Joined(info) => PayloadInner::Joined(UserInfo(info.0.clone())),
            PayloadInner::Left(info) => PayloadInner::Left(LeaveInfo(info.0.clone())),
            PayloadInner::Message(msg) => PayloadInner::Message(
                MessageInfo { content: msg.content.clone(), sender: msg.sender.clone() },
            ),
        }
    }
}

/// The text of a payload's paragraph: the time in parentheses, then on the
/// next line what the payload says.
pub open spec fn paragraph_text(stamp: Seq<char>, contents: Seq<char>) -> Seq<char> {
    "("@ + stamp + ")\n"@ + contents
}

/// The paragraph for a payload made at the time written `stamp` that says
/// `contents`.
pub fn paragraph(stamp: &str, contents: &str) -> (text: String)
    ensures
        text@ == paragraph_text(stamp@, contents@),
{
    let mut s = String::from_str("(");
    s.append(stamp);
    s.append(")\n");
    s.append(contents);
    s
}

/// A payload's identifier and the time it was made.
#[derive(Clone, Copy, PartialEq, Eq, Debug)]
pub struct PayloadMeta {
    pub id: u128,
    pub sent_at: Timestamp,
}

impl PayloadMeta {
    /// A fresh random (version 4) identifier and the current time.
    pub fn new() -> (m: PayloadMeta)
        ensures
            is_random_uuid(m.id),
            m.sent_at.nanos < 2_000_000_000,
    {
        PayloadMeta { id: new_uuid(), sent_at: now() }
    }
}

/// A payload and its identifier and time.
#[derive(Clone, PartialEq, Eq, Debug)]
pub struct Payload {
    pub inner: PayloadInner,
    pub meta: PayloadMeta,
}

impl Payload {
    pub fn new_joined(username: &str) -> (p: Payload)
        ensures
            p.inner matches PayloadInner::Joined(info) && info.0@ == username@,
            is_random_uuid(p.meta.id),
    {
        Payload { inner: PayloadInner::new_joined(username), meta: PayloadMeta::new() }
    }

    pub fn new_left(username: &str) -> (p: Payload)
        ensures
            p.inner matches PayloadInner::Left(info) && info.0@ == username@,
            is_random_uuid(p.meta.id),
    {
        Payload { inner: PayloadInner::new_left(username), meta: PayloadMeta::new() }
    }

    pub fn new_message(sender: &str, content: String) -> (p: Payload)
        ensures
            p.inner matches PayloadInner::Message(msg) && msg.sender@ == sender@ && msg.content@ == content@,
            is_random_uuid(p.meta.id),
    {
        Payload { inner: PayloadInner::new_message(sender, content), meta: PayloadMeta::new() }
    }

    /// The text of the paragraph a client shows for the payload: the time it
    /// was made in parentheses, then on the next line what it says. `None`
    /// where the time cannot be written as a date.
    pub fn to_html(&self) -> (text: Option<String>)
        ensures
            match naive_time_text(self.meta.sent_at.secs, self.meta.sent_at.nanos) {
                Some(t) => text matches Some(s) && s@ == paragraph_text(t, self.inner.text()),
                None => text is None,
            },
    {
        let stamp = match time_text(self.meta.sent_at) {
            Some(t) => t,
            None => return None,
        };
        let contents = self.inner.display();
        Some(paragraph(stamp.as_str(), contents.as_str()))
    }

    /// A copy equal to `self`.
    pub fn duplicate(&self) -> (p: Payload)
        ensures
            p == *self,
    {
        Payload { inner: self.inner.duplicate(), meta: self.meta }
    }
}

} // verus!
