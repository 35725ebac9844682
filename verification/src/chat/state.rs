//! The chat server's shared state: the users, whose names are unique, and
//! every payload broadcast to the clients, in the order it was sent.
use vstd::prelude::*;
use crate::chat::messages::User;
use crate::chat::payload::Payload;

verus! {

/// Why a payload was not kept.
#[derive(Clone, Copy, PartialEq, Eq, Structural, Debug)]
pub enum SendError {
    /// No client was subscribed to receive it, so the broadcast failed.
    NoReceivers,
}

/// The users and the payloads sent so far.
pub struct AppState {
    user_set: Vec<User>,
    payloads: Vec<Payload>,
}

impl AppState {
    /// The names of the users, in the order they were added.
    pub closed spec fn usernames(&self) -> Seq<Seq<char>> {
        self.user_set@.map_values(|u: User| u.username@)
    }

    /// The payloads sent, oldest first.
    pub closed spec fn sent(&self) -> Seq<Payload> {
        self.payloads@
    }

    /// No name is taken twice.
    pub closed spec fn wf(&self) -> bool {
        self.usernames().no_duplicates()
    }

    /// No users and nothing sent.
    pub fn new() -> (s: AppState)
        ensures
            s.wf(),
            s.usernames() == Seq::<Seq<char>>::empty(),
            s.sent() == Seq::<Payload>::empty(),
    {
        let s = AppState { user_set: Vec::new(), payloads: Vec::new() };
        assert(s.usernames() =~= Seq::<Seq<char>>::empty());
        s
    }

    /// Whether no user is called `name`.
    pub fn username_is_unique(&self, name: &str) -> (unique: bool)
        ensures
            unique == !self.usernames().contains(name@),
    {
        let wanted = name.to_owned();
        let mut i: usize = 0;
        while i < self.user_set.len()
            invariant
                i <= self.user_set@.len(),
                wanted@ == name@,
                forall|k: int| 0 <= k < i ==> self.usernames()[k] != name@,
            decreases self.user_set@.len() - i,
        {
            if self.user_set[i].username == wanted {
                assert(self.usernames()[i as int] == name@);
                return false;
            }
            i += 1;
        }
        proof {
            if self.usernames().contains(name@) {
                let k = choose|k: int| 0 <= k < self.usernames().len() && self.usernames()[k] == name@;
                assert(self.usernames()[k] != name@);
            }
        }
        true
    }

    /// Adds a user called `name` unless the name is taken. Returns none if the
    /// username is already taken, and then changes nothing.
    pub fn add_user(&mut self, name: &str) -> (user: Option<User>)
        requires
            old(self).wf(),
        ensures
            final(self).wf(),
            user is Some <==> !old(self).usernames().contains(name@),
            user matches Some(u) ==> u.username@ == name@ && final(self).usernames() == old(self).usernames().push(name@),
            user is None ==> final(self).usernames() == old(self).usernames(),
            final(self).sent() == old(self).sent(),
    {
        if self.username_is_unique(name) {
            let user = User { username: name.to_owned() };
            let stored = User { username: user.username.clone() };
            proof {
                let names = self.usernames().push(name@);
                assert(self.user_set@.push(stored).map_values(|u: User| u.username@) =~= names);
                assert(names.no_duplicates()) by {
                    assert forall|i: int, j: int| 0 <= i < names.len() && 0 <= j < names.len() && i != j implies names[i]
                        != names[j] by {
                        if i == names.len() - 1 {
                            assert(self.usernames().contains(names[j]));
                        } else if j == names.len() - 1 {
                            assert(self.usernames().contains(names[i]));
                        }
                    }
                }
            }
            self.user_set.push(stored);
            return Some(user);
        }
        None
    }

    /// Keeps `payload` if its broadcast reached a receiver (`delivered`);
    /// otherwise fails with [`SendError::NoReceivers`] and keeps nothing.
    pub fn send(&mut self, payload: Payload, delivered: bool) -> (r: Result<(), SendError>)
        requires
            old(self).wf(),
        ensures
            final(self).wf(),
            delivered ==> r is Ok && final(self).sent() == old(self).sent().push(payload),
            !delivered ==> r == Err::<(), SendError>(SendError::NoReceivers) && final(self).sent() == old(self).sent(),
            final(self).usernames() == old(self).usernames(),
    {
        if !delivered {
            return Err(SendError::NoReceivers);
        }
        self.payloads.push(payload);
        Ok(())
    }

    /// A copy of every payload sent, oldest first.
    pub fn get_payload_list(&self) -> (list: Vec<Payload>)
        ensures
            list@ == self.sent(),
    {
        let mut list: Vec<Payload> = Vec::new();
        let mut i: usize = 0;
        while i < self.payloads.len()
            invariant
                i <= self.payloads@.len(),
                list@ == self.payloads@.subrange(0, i as int),
            decreases self.payloads@.len() - i,
        {
            list.push(self.payloads[i].duplicate());
            i += 1;
        }
        list
    }
}

} // verus!
