use spr::config::Config;
use spr::error::{Error, Result};
use spr::jj::{ChangeId, Revision};
use spr::message::Message;
use spr::oid::Oid;
use spr::stacked::{do_stacked, Action, Reply, StackedOptions, Step, Update};

fn oid(byte: u8) -> Oid {
    Oid { bytes: [byte; 20] }
}

fn config() -> Config {
    Config { remote_name: "origin".into(), master_branch: "main".into() }
}

fn revision(title: Option<&str>, number: Option<u64>) -> Revision {
    Revision {
        id: ChangeId::from_str("kx".into()),
        parent_ids: vec![ChangeId::from_str("root".into())],
        pull_request_number: number,
        message: Message {
            title: title.map(String::from),
            last_commit: Some("old".into()),
            pull_request: None,
            others: vec![("Test Plan".into(), "none".into())],
        },
    }
}

/// Gives an update its replies in turn, and writes down what it asks for.
fn run(
    revision: Revision,
    message: Option<&str>,
    replies: Vec<Reply>,
) -> (Vec<Action>, Option<Result<Revision>>) {
    let config = config();
    let opts = StackedOptions { message: message.map(String::from) };
    let mut update = Update::start(revision, "trunk".into(), "spr/x".into());
    let mut asked = Vec::new();
    for reply in replies {
        let action = update.request(&config);
        assert!(action.accepts(&reply), "{:?} {:?}", action, reply);
        asked.push(action);
        match do_stacked(&config, &opts, update, reply) {
            Step::Waiting(next) => update = next,
            Step::Finished(outcome) => return (asked, Some(outcome)),
        }
    }
    asked.push(update.request(&config));
    (asked, None)
}

fn failed() -> Reply {
    Reply::Failed(Error::new("cause"))
}

/// The replies up to the merge base: base 1, head 2, its tree 3, commit 4, its
/// tree 5, merge base 1.
fn facts() -> Vec<Reply> {
    vec![
        Reply::Id(oid(1)),
        Reply::Id(oid(2)),
        Reply::Id(oid(3)),
        Reply::Id(oid(4)),
        Reply::Id(oid(5)),
        Reply::Id(oid(1)),
    ]
}

fn messages(outcome: Option<Result<Revision>>) -> Vec<String> {
    match outcome {
        Some(Err(error)) => error.messages().clone(),
        _ => panic!("the update did not fail"),
    }
}

#[test]
fn update_of_an_existing_branch() {
    let mut replies = facts();
    replies.push(Reply::Id(Oid {
        bytes: [
            0x00, 0x01, 0x0f, 0x10, 0x9a, 0xab, 0xff, 0, 0, 0, 0, 0, 0, 0, 0, 0, 0, 0, 0, 0xde,
        ],
    }));
    replies.push(Reply::Done);
    replies.push(Reply::Text("https://pr/8".into()));
    replies.push(Reply::Done);
    let (asked, outcome) = run(revision(Some("Title"), Some(8)), Some("review"), replies);
    assert_eq!(asked.len(), 10);
    assert!(matches!(&asked[0], Action::ResolveRef { name } if name == "trunk"));
    assert!(matches!(&asked[1], Action::ResolveRef { name } if name == "origin/spr/x"));
    assert!(matches!(&asked[2], Action::TreeOf { commit } if *commit == oid(2)));
    assert!(matches!(&asked[3], Action::ResolveRevision { id } if id.0 == "kx"));
    assert!(matches!(&asked[4], Action::TreeOf { commit } if *commit == oid(4)));
    assert!(matches!(&asked[5], Action::MergeBase { one, two } if *one == oid(2) && *two == oid(1)));
    match &asked[6] {
        Action::CreateCommit { original, text, tree, parents } => {
            assert_eq!(*original, oid(4));
            assert_eq!(text, "review\n\nCreated using jj-spr");
            assert_eq!(*tree, oid(5));
            assert_eq!(*parents, vec![oid(2)]);
        }
        other => panic!("{:?}", other),
    }
    let hex = "00010f109aabff000000000000000000000000de";
    match &asked[7] {
        Action::Push { args } => {
            let refspec = format!("{}:refs/heads/spr/x", hex);
            assert_eq!(
                *args,
                vec!["push", "--atomic", "--no-verify", "--", "origin", refspec.as_str()]
            );
        }
        other => panic!("{:?}", other),
    }
    assert!(matches!(&asked[8], Action::PullRequestUrl { number: 8 }));
    match &asked[9] {
        Action::Output { icon, text } => {
            assert_eq!(icon, "✅");
            assert_eq!(text, "Updated https://pr/8");
        }
        other => panic!("{:?}", other),
    }
    let updated = outcome.unwrap().unwrap();
    assert_eq!(updated.message.last_commit.as_deref(), Some(hex));
    assert_eq!(updated.message.title.as_deref(), Some("Title"));
    assert_eq!(updated.message.pull_request, None);
    assert_eq!(updated.message.others, vec![("Test Plan".to_string(), "none".to_string())]);
    assert_eq!(updated.pull_request_number, Some(8));
}

#[test]
fn moved_base_is_merged_in() {
    let mut replies = facts();
    replies[5] = Reply::Id(oid(9));
    replies.push(Reply::Id(oid(6)));
    replies.push(Reply::Done);
    replies.push(Reply::Text("url".into()));
    replies.push(Reply::Done);
    let (asked, outcome) = run(revision(None, Some(8)), Some(""), replies);
    match &asked[6] {
        Action::CreateCommit { text, parents, .. } => {
            assert_eq!(text, "\n\nCreated using jj-spr");
            assert_eq!(*parents, vec![oid(2), oid(1)]);
        }
        other => panic!("{:?}", other),
    }
    assert!(matches!(&asked[9], Action::Output { text, .. } if text == "Rebased url"));
    assert!(outcome.unwrap().is_ok());
}

#[test]
fn moved_base_is_merged_in_though_the_tree_is_the_same() {
    let mut replies = facts();
    replies[4] = Reply::Id(oid(3));
    replies[5] = Reply::Id(oid(9));
    let (asked, _) = run(revision(None, None), Some(""), replies);
    assert!(matches!(asked.last(), Some(Action::CreateCommit { .. })));
}

#[test]
fn new_branch_starts_at_the_base() {
    let mut replies = facts();
    replies[1] = failed();
    replies.push(Reply::Text("Body".into()));
    replies.push(Reply::Id(oid(6)));
    replies.push(Reply::Done);
    let (asked, outcome) = run(revision(Some("Title"), None), Some("review"), replies);
    assert!(matches!(&asked[2], Action::TreeOf { commit } if *commit == oid(1)));
    assert!(matches!(&asked[5], Action::MergeBase { one, two } if *one == oid(1) && *two == oid(1)));
    match &asked[6] {
        Action::GithubBody { message } => assert_eq!(message.last_commit.as_deref(), Some("old")),
        other => panic!("{:?}", other),
    }
    match &asked[7] {
        Action::CreateCommit { text, parents, .. } => {
            assert_eq!(text, "Title\n\nBody\n\nCreated using jj-spr");
            assert_eq!(*parents, vec![oid(1)]);
        }
        other => panic!("{:?}", other),
    }
    assert_eq!(asked.len(), 9);
    assert_eq!(
        outcome.unwrap().unwrap().message.last_commit.as_deref(),
        Some("0606060606060606060606060606060606060606")
    );
}

#[test]
fn user_is_asked_for_a_message_without_one() {
    let mut replies = facts();
    replies.push(Reply::Text("typed".into()));
    let (asked, _) = run(revision(Some("Title"), None), None, replies);
    assert!(matches!(&asked[6], Action::AskMessage));
    assert!(
        matches!(&asked[7], Action::CreateCommit { text, .. } if text == "typed\n\nCreated using jj-spr")
    );
}

#[test]
fn new_branch_without_title_takes_the_given_message() {
    let mut replies = facts();
    replies[1] = failed();
    let (asked, _) = run(revision(None, None), Some("given"), replies);
    assert!(
        matches!(&asked[6], Action::CreateCommit { text, .. } if text == "given\n\nCreated using jj-spr")
    );
}

#[test]
fn unchanged_branch_is_left_alone() {
    let mut replies = facts();
    replies[4] = Reply::Id(oid(3));
    replies.push(Reply::Text("https://pr/8".into()));
    replies.push(Reply::Done);
    let (asked, outcome) = run(revision(Some("Title"), Some(8)), Some(""), replies);
    assert_eq!(asked.len(), 8);
    assert!(matches!(&asked[6], Action::PullRequestUrl { number: 8 }));
    assert!(
        matches!(&asked[7], Action::Output { text, .. } if text == "No update necessary for #https://pr/8")
    );
    assert_eq!(outcome.unwrap().unwrap().message.last_commit.as_deref(), Some("old"));

    let mut replies = facts();
    replies[4] = Reply::Id(oid(3));
    replies.push(Reply::Done);
    let (asked, outcome) = run(revision(Some("Title"), None), Some(""), replies);
    assert_eq!(asked.len(), 7);
    assert!(matches!(&asked[6], Action::Output { text, .. } if text == "No update necessary"));
    assert!(outcome.unwrap().is_ok());
}

#[test]
fn second_update_has_nothing_to_do() {
    let mut replies = facts();
    replies.push(Reply::Id(oid(6)));
    replies.push(Reply::Done);
    let (asked, outcome) = run(revision(Some("Title"), None), Some("given"), replies);
    let tree = asked
        .iter()
        .find_map(|action| match action {
            Action::CreateCommit { tree, .. } => Some(*tree),
            _ => None,
        })
        .unwrap();
    assert!(tree == oid(5));
    let updated = outcome.unwrap().unwrap();

    let replies = vec![
        Reply::Id(oid(1)),
        Reply::Id(oid(6)),
        Reply::Id(tree),
        Reply::Id(oid(4)),
        Reply::Id(oid(5)),
        Reply::Id(oid(1)),
        Reply::Done,
    ];
    let (asked, outcome) = run(updated.clone(), Some("given"), replies);
    assert_eq!(asked.len(), 7);
    assert!(!asked
        .iter()
        .any(|action| matches!(action, Action::CreateCommit { .. } | Action::Push { .. })));
    assert_eq!(outcome.unwrap().unwrap().message.last_commit, updated.message.last_commit);
}

#[test]
fn failures_say_where_they_happened() {
    let said = |after: usize| {
        let mut replies = facts();
        replies.truncate(after);
        replies.push(failed());
        messages(run(revision(None, None), Some(""), replies).1)
    };
    assert_eq!(said(0), vec!["cause"]);
    assert_eq!(said(2), vec!["cause", "tree_oid_for_commit"]);
    assert_eq!(said(3), vec!["cause", "resolve revision"]);
    assert_eq!(said(4), vec!["cause", "resolve tree"]);
    assert_eq!(said(5), vec!["cause"]);
    assert_eq!(said(6), vec!["cause", "derive commit"]);

    let mut replies = facts();
    replies.push(Reply::Id(oid(6)));
    replies.push(failed());
    assert_eq!(messages(run(revision(None, None), Some(""), replies).1), vec!["git push failed"]);

    let mut replies = facts();
    replies.push(failed());
    assert_eq!(messages(run(revision(None, None), None, replies).1), vec!["cause"]);
}

#[test]
fn longest_update_takes_eleven_replies() {
    let mut replies = facts();
    replies[1] = failed();
    replies.push(Reply::Text("Body".into()));
    replies.push(Reply::Id(oid(6)));
    replies.push(Reply::Done);
    replies.push(Reply::Text("url".into()));
    replies.push(Reply::Done);
    assert_eq!(replies.len(), 11);
    let (asked, outcome) = run(revision(Some("Title"), Some(1)), None, replies);
    assert_eq!(asked.len(), 11);
    assert!(outcome.unwrap().is_ok());
}

#[test]
fn only_fitting_replies_are_accepted() {
    let url = Action::PullRequestUrl { number: 1 };
    assert!(url.accepts(&Reply::Text("x".into())));
    assert!(!url.accepts(&failed()));
    let fetch = Action::FetchPullRequests { numbers: vec![1, 2] };
    assert!(fetch.accepts(&failed()));
    assert!(!fetch.accepts(&Reply::PullRequests(Vec::new())));
    assert!(fetch.accepts(&Reply::PullRequests(vec![
        Err(Error::new("one")),
        Err(Error::new("two")),
    ])));
    let resolve = Action::ResolveRef { name: "x".into() };
    assert!(resolve.accepts(&Reply::Id(oid(1))));
    assert!(!resolve.accepts(&Reply::Done));
}
