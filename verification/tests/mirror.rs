use workbench::mirror::{
    after_attempt, branch_ref, connection_rounds, connections, merge_plan, start_depth, user_list_url, Crawl, MergePlan,
    Repo, RepoAction, RepoOutcome, User, UserList, UserStep,
};

#[test]
fn a_user_is_taken_up_once() {
    let mut crawl = Crawl::new();
    assert_eq!(crawl.handle_user("octocat", 2), UserStep::Pull { expand: true });
    assert!(crawl.contains("octocat"));
    assert_eq!(crawl.handle_user("octocat", 5), UserStep::Skip);
    assert_eq!(crawl.handle_user("hubot", 0), UserStep::Pull { expand: false });
    assert!(!crawl.contains("nobody"));
}

#[test]
fn depth_and_rounds() {
    assert_eq!(start_depth(3, false), 3);
    assert_eq!(start_depth(3, true), u32::MAX);
    assert_eq!(connection_rounds(3), 2);
    assert_eq!(connection_rounds(1), 0);
}

#[test]
fn following_come_before_followers() {
    let next = connections(vec!["a".to_string(), "b".to_string()], vec!["c".to_string()]);
    assert_eq!(next, vec!["a", "b", "c"]);
}

#[test]
fn api_addresses() {
    assert_eq!(
        user_list_url("octocat", UserList::Following),
        Some("https://api.github.com/users/octocat/following".to_string())
    );
    assert_eq!(
        user_list_url("octocat", UserList::Followers),
        Some("https://api.github.com/users/octocat/followers".to_string())
    );
    assert_eq!(user_list_url("octocat", UserList::Repos), Some("https://api.github.com/users/octocat/repos".to_string()));
    assert_eq!(user_list_url("a b", UserList::Repos), Some("https://api.github.com/users/a%20b/repos".to_string()));
}

#[test]
fn merge_plans() {
    assert_eq!(merge_plan(true, true), MergePlan::FastForward);
    assert_eq!(merge_plan(false, true), MergePlan::Normal);
    assert_eq!(merge_plan(false, false), MergePlan::UpToDate);
    assert_eq!(branch_ref("master"), "refs/heads/master");
}

#[test]
fn what_follows_an_attempt() {
    assert_eq!(after_attempt(RepoOutcome::Fetched), RepoAction::Done);
    assert_eq!(after_attempt(RepoOutcome::Cloned), RepoAction::Done);
    assert_eq!(after_attempt(RepoOutcome::FetchFailed), RepoAction::RemoveAndRetry);
    assert_eq!(after_attempt(RepoOutcome::CloneFailed), RepoAction::PauseAndRetry { millis: 1000 });
}

#[test]
fn records() {
    let u = User { login: "octocat".to_string() };
    let r = Repo {
        name: "hello".to_string(),
        full_name: "octocat/hello".to_string(),
        id: 1,
        html_url: "https://github.com/octocat/hello".to_string(),
        git_url: String::new(),
        ssh_url: String::new(),
        clone_url: "https://github.com/octocat/hello.git".to_string(),
        svn_url: String::new(),
    };
    assert_eq!(u.login, "octocat");
    assert_eq!(r.full_name, "octocat/hello");
}
