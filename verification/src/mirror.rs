//! The bookkeeping of a crawler that mirrors the GitHub repositories of a user
//! and, to a given depth, of the users they follow and are followed by: which
//! users were already taken up, what to do next for a user, the API addresses
//! asked, how a fetched branch is merged, and what follows a failed attempt on
//! a repository.
use vstd::prelude::*;

verus! {

/// A GitHub user, as the API lists them.
#[derive(Clone, PartialEq, Eq, Debug)]
pub struct User {
    pub login: String,
}

/// A repository, as the API lists it.
#[derive(Clone, PartialEq, Eq, Debug)]
pub struct Repo {
    pub name: String,
    pub full_name: String,
    pub id: u32,
    pub html_url: String,
    pub git_url: String,
    pub ssh_url: String,
    pub clone_url: String,
    pub svn_url: String,
}

/// What `url::Url::parse` makes of `text`, written back out (`Url::as_str`):
/// `None` where the text is not a URL.
pub uninterp spec fn parsed_url(text: Seq<char>) -> Option<Seq<char>>;

/// Parses `text` with `url::Url::parse` and gives the URL's text. Claimed:
/// the result is [`parsed_url`] of the text.
#[verifier::external_body]
fn parse_url(text: &str) -> (url: Option<String>)
    ensures
        match url {
            Some(u) => parsed_url(text@) == Some(u@),
            None => parsed_url(text@) is None,
        },
{
    match url::Url::parse(text) {
        Ok(u) => Some(u.as_str().to_string()),
        Err(_) => None,
    }
}

/// How many more rounds of following and followers to take up from the first
/// user: without end (`u32::MAX`) when `infinite`, else `depth`.
pub fn start_depth(depth: u32, infinite: bool) -> (d: u32)
    ensures
        d == if infinite { u32::MAX } else { depth },
{
    if infinite {
        u32::MAX
    } else {
        depth
    }
}

/// What to do for a user the crawl reaches.
#[derive(Clone, Copy, PartialEq, Eq, Structural, Debug)]
pub enum UserStep {
    /// The user was taken up before: nothing to do.
    Skip,
    /// Mirror the user's repositories, and when `expand`, take up the users
    /// they follow and are followed by.
    Pull { expand: bool },
}

/// The users taken up so far, in the order they were reached.
pub struct Crawl {
    checked_users: Vec<String>,
}

impl Crawl {
    /// The logins taken up so far.
    pub closed spec fn checked(&self) -> Seq<Seq<char>> {
        self.checked_users@.map_values(|u: String| u@)
    }

    /// No login is taken up twice.
    pub closed spec fn wf(&self) -> bool {
        self.checked().no_duplicates()
    }

    /// A crawl that has taken up no one.
    pub fn new() -> (c: Crawl)
        ensures
            c.wf(),
            c.checked() == Seq::<Seq<char>>::empty(),
    {
        let c = Crawl { checked_users: Vec::new() };
        assert(c.checked() =~= Seq::<Seq<char>>::empty());
        c
    }

    /// Whether `user` was taken up.
    pub fn contains(&self, user: &str) -> (found: bool)
        ensures
            found == self.checked().contains(user@),
    {
        let wanted = user.to_owned();
        let mut i: usize = 0;
        while i < self.checked_users.len()
            invariant
                i <= self.checked_users@.len(),
                wanted@ == user@,
                forall|k: int| 0 <= k < i ==> self.checked()[k] != user@,
            decreases self.checked_users@.len() - i,
        {
            if self.checked_users[i] == wanted {
                assert(self.checked()[i as int] == user@);
                return true;
            }
            i += 1;
        }
        proof {
            if self.checked().contains(user@) {
                let k = choose|k: int| 0 <= k < self.checked().len() && self.checked()[k] == user@;
                assert(self.checked()[k] != user@);
            }
        }
        false
    }

    /// Takes up `user`, reached with `iterations_remaining` rounds left: a user
    /// taken up before is skipped; anyone else is recorded and has their
    /// repositories mirrored, and their connections are taken up too while
    /// rounds remain.
    pub fn handle_user(&mut self, user: &str, iterations_remaining: u32) -> (step: UserStep)
        requires
            old(self).wf(),
        ensures
            final(self).wf(),
            old(self).checked().contains(user@) ==> step == UserStep::Skip && final(self).checked() == old(self).checked(),
            !old(self).checked().contains(user@) ==> step == (UserStep::Pull { expand: iterations_remaining > 0 })
                && final(self).checked() == old(self).checked().push(user@),
    {
        if self.contains(user) {
            return UserStep::Skip;
        }
        let login = user.to_owned();
        proof {
            let names = self.checked().push(user@);
            assert(self.checked_users@.push(login).map_values(|u: String| u@) =~= names);
            assert(names.no_duplicates()) by {
                assert forall|i: int, j: int| 0 <= i < names.len() && 0 <= j < names.len() && i != j implies names[i]
                    != names[j] by {
                    if i == names.len() - 1 {
                        assert(self.checked().contains(names[j]));
                    } else if j == names.len() - 1 {
                        assert(self.checked().contains(names[i]));
                    }
                }
            }
        }
        self.checked_users.push(login);
        UserStep::Pull { expand: iterations_remaining > 0 }
    }
}

/// The rounds left for the connections of a user taken up with
/// `iterations_remaining` rounds left: one fewer.
pub fn connection_rounds(iterations_remaining: u32) -> (r: u32)
    requires
        iterations_remaining > 0,
    ensures
        r == iterations_remaining - 1,
{
    iterations_remaining - 1
}

/// The users to take up next from a user: the ones they follow, then their
/// followers, in the order the API listed them.
pub fn connections(following: Vec<String>, followers: Vec<String>) -> (next: Vec<String>)
    ensures
        next@ == following@ + followers@,
{
    let mut next = following;
    let mut rest = followers;
    next.append(&mut rest);
    next
}

/// Which list of a user the API is asked for.
#[derive(Clone, Copy, PartialEq, Eq, Structural, Debug)]
pub enum UserList {
    Following,
    Followers,
    Repos,
}

/// The address of a user's list before parsing.
pub open spec fn list_text(user: Seq<char>, list: UserList) -> Seq<char> {
    "https://api.github.com/users/"@ + user + match list {
        UserList::Following => "/following"@,
        UserList::Followers => "/followers"@,
        UserList::Repos => "/repos"@,
    }
}

/// The API address of one of a user's lists, as `url::Url::parse` reads it;
/// `None` where the text makes no URL.
pub fn user_list_url(user: &str, list: UserList) -> (url: Option<String>)
    ensures
        match url {
            Some(u) => parsed_url(list_text(user@, list)) == Some(u@),
            None => parsed_url(list_text(user@, list)) is None,
        },
{
    let mut text = String::from_str("https://api.github.com/users/");
    text.append(user);
    match list {
        UserList::Following => text.append("/following"),
        UserList::Followers => text.append("/followers"),
        UserList::Repos => text.append("/repos"),
    }
    parse_url(text.as_str())
}

/// How a fetched commit is brought into the local branch.
#[derive(Clone, Copy, PartialEq, Eq, Structural, Debug)]
pub enum MergePlan {
    /// Move the branch to the fetched commit.
    FastForward,
    /// Make a merge commit.
    Normal,
    /// Nothing to do.
    UpToDate,
}

/// The plan that git's merge analysis calls for: a fast-forward where it
/// allows one, else a normal merge where it allows one, else nothing.
pub fn merge_plan(is_fast_forward: bool, is_normal: bool) -> (plan: MergePlan)
    ensures
        plan == if is_fast_forward {
            MergePlan::FastForward
        } else if is_normal {
            MergePlan::Normal
        } else {
            MergePlan::UpToDate
        },
{
    if is_fast_forward {
        MergePlan::FastForward
    } else if is_normal {
        MergePlan::Normal
    } else {
        MergePlan::UpToDate
    }
}

/// The reference name of a local branch.
pub fn branch_ref(branch: &str) -> (name: String)
    ensures
        name@ == "refs/heads/"@ + branch@,
{
    let mut name = String::from_str("refs/heads/");
    name.append(branch);
    name
}

/// How an attempt on a repository went.
#[derive(Clone, Copy, PartialEq, Eq, Structural, Debug)]
pub enum RepoOutcome {
    /// The repository was there and was fetched and merged.
    Fetched,
    /// The repository was there but fetching or merging failed.
    FetchFailed,
    /// The repository was not there and was cloned.
    Cloned,
    /// The repository was not there and cloning failed.
    CloneFailed,
}

/// What follows an attempt on a repository.
#[derive(Clone, Copy, PartialEq, Eq, Structural, Debug)]
pub enum RepoAction {
    /// Nothing more.
    Done,
    /// The copy is taken to be broken: remove it and try again.
    RemoveAndRetry,
    /// Pause every download for `millis` milliseconds, then try again.
    PauseAndRetry { millis: u64 },
}

/// A fetch that fails has the copy removed and cloned afresh; a clone that
/// fails pauses every download for a second before the next try.
pub fn after_attempt(outcome: RepoOutcome) -> (action: RepoAction)
    ensures
        action == match outcome {
            RepoOutcome::Fetched => RepoAction::Done,
            RepoOutcome::FetchFailed => RepoAction::RemoveAndRetry,
            RepoOutcome::Cloned => RepoAction::Done,
            RepoOutcome::CloneFailed => RepoAction::PauseAndRetry { millis: 1000 },
        },
{
    match outcome {
        RepoOutcome::Fetched => RepoAction::Done,
        RepoOutcome::FetchFailed => RepoAction::RemoveAndRetry,
        RepoOutcome::Cloned => RepoAction::Done,
        RepoOutcome::CloneFailed => RepoAction::PauseAndRetry { millis: 1000 },
    }
}

} // verus!
