//! The users and messages that chat clients see.
use vstd::prelude::*;
use std::cmp::Ordering;
use crate::chat::client::{json_string, json_string_text};
use crate::chat::timestamp::{Timestamp, now};

verus! {

/// A chat user, known by name.
#[derive(Clone, PartialEq, Eq, PartialOrd, Ord, Hash, Debug)]
pub struct User {
    pub username: String,
}

/// A message: its content as JSON text, the name of its sender and when it was sent.
#[derive(Clone, PartialEq, Eq, Debug)]
pub struct Message {
    pub content: String,
    pub sender: String,
    pub sent_at: Timestamp,
}

/// The order of two points in time.
pub open spec fn time_order(a: Timestamp, b: Timestamp) -> Ordering {
    if a.earlier(b) {
        Ordering::Less
    } else if b.earlier(a) {
        Ordering::Greater
    } else {
        Ordering::Equal
    }
}

impl Message {
    /// A message with the given content from `sender`, stamped with the current time.
    pub fn new(content: String, sender: &str) -> (m: Message)
        ensures
            m.content@ == content@,
            m.sender@ == sender@,
    {
        Message { content, sender: sender.to_owned(), sent_at: now() }
    }

    /// The message a client starts with: from `SYSTEM`, saying "Hello, world!"
    /// as a JSON string, stamped with the current time.
    pub fn create() -> (m: Message)
        ensures
            m.sender@ == "SYSTEM"@,
            m.content@ == json_string_text("Hello, world!"@),
    {
        Message { sender: String::from_str("SYSTEM"), content: json_string("Hello, world!"), sent_at: now() }
    }

    /// A message takes no events: nothing changes and nothing is redrawn.
    pub fn update(&mut self) -> (redraw: bool)
        ensures
            !redraw,
            *final(self) == *old(self),
    {
        false
    }

    /// What a client shows for a message, for now the same notice for all.
    pub fn to_html(&self) -> (text: String)
        ensures
            text@ == "Messages have no implementation yet"@,
    {
        String::from_str("Messages have no implementation yet")
    }

    /// Messages are ordered by when they were sent.
    pub fn cmp(&self, other: &Self) -> (o: Ordering)
        ensures
            o == time_order(self.sent_at, other.sent_at),
    {
        let a = self.sent_at;
        let b = other.sent_at;
        if a.secs < b.secs || (a.secs == b.secs && a.nanos < b.nanos) {
            Ordering::Less
        } else if b.secs < a.secs || (a.secs == b.secs && b.nanos < a.nanos) {
            Ordering::Greater
        } else {
            Ordering::Equal
        }
    }

    /// The order of [`Message::cmp`], which is total.
    pub fn partial_cmp(&self, other: &Self) -> (o: Option<Ordering>)
        ensures
            o == Some(time_order(self.sent_at, other.sent_at)),
    {
        Some(self.cmp(other))
    }
}

/// Messages are totally ordered by time: two messages compare the opposite
/// way round, equal only at the same time, and the order is transitive.
pub proof fn lemma_time_order_total(a: Timestamp, b: Timestamp, c: Timestamp)
    ensures
        (time_order(a, b) == Ordering::Less) == (time_order(b, a) == Ordering::Greater),
        (time_order(a, b) == Ordering::Equal) == (a == b),
        time_order(a, b) == Ordering::Less && time_order(b, c) == Ordering::Less ==> time_order(a, c)
            == Ordering::Less,
{
}

} // verus!
