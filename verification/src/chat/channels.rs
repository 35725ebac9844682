//! A chat channel: who may post in it and what it holds, by identifier.
use vstd::prelude::*;

verus! {

/// A channel, the users permitted in it and its messages, each a 128-bit identifier.
#[derive(Clone, PartialEq, Eq, Debug)]
pub struct Channel {
    pub id: u128,
    pub permitted_users: Vec<u128>,
    pub messages: Vec<u128>,
}

} // verus!
