//! The records of the chat server's own interface.
use vstd::prelude::*;

verus! {

/// A user of the chat server, known by name.
#[derive(Clone, PartialEq, Eq, PartialOrd, Ord, Hash, Debug)]
pub struct User {
    pub username: String,
}

/// A message as the server's interface carries it: text and the sender's name.
#[derive(Clone, PartialEq, Eq, PartialOrd, Ord, Hash, Debug)]
pub struct Message {
    pub content: String,
    pub sender: String,
}

} // verus!
