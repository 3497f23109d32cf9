use spr::config::Config;
use spr::error::{Error, Result};
use spr::github::{GitHubBranch, PullRequest};
use spr::jj::{ChangeId, Revision};
use spr::message::Message;
use spr::oid::Oid;
use spr::stacked::command::odd_error;
use spr::stacked::{collect_futures, stacked, Action, Command, Reply, StackedOptions, Step};

fn oid(byte: u8) -> Oid {
    Oid { bytes: [byte; 20] }
}

fn revision(id: &str, parents: &[&str], number: Option<u64>) -> Revision {
    Revision {
        id: ChangeId::from_str(id.into()),
        parent_ids: parents.iter().map(|parent| ChangeId::from_str(parent.to_string())).collect(),
        pull_request_number: number,
        message: Message {
            title: Some(format!("Title {}", id)),
            last_commit: None,
            pull_request: None,
            others: Vec::new(),
        },
    }
}

fn branch(name: &str) -> GitHubBranch {
    GitHubBranch {
        branch_name: name.into(),
        local: format!("refs/remotes/origin/{}", name),
        is_master_branch: name == "main",
    }
}

/// Runs the command. Every branch is there already at commit 2 and needs an
/// update; pull requests have the numbers 101, 102 and so on.
fn run(
    revisions: Vec<Revision>,
    fetched: Vec<Result<PullRequest>>,
    fail_at: Option<usize>,
) -> (Vec<Action>, Result<()>) {
    let config = Config { remote_name: "origin".into(), master_branch: "main".into() };
    let opts = StackedOptions { message: Some("msg".into()) };
    let mut revisions = Some(revisions);
    let mut fetched = Some(fetched);
    let mut number = 100;
    let mut asked: Vec<Action> = Vec::new();
    let mut command = Command::start();
    loop {
        let action = command.request(&config);
        let reply = if fail_at == Some(asked.len()) {
            Reply::Failed(Error::new("cause"))
        } else {
            match &action {
                Action::ReadRevisions { .. } => Reply::Revisions(revisions.take().unwrap()),
                Action::FetchPullRequests { .. } => Reply::PullRequests(fetched.take().unwrap()),
                Action::NewBranchName { title } => {
                    Reply::Text(title.to_lowercase().replace(' ', "-"))
                }
                Action::ResolveRef { name } => {
                    Reply::Id(if name.starts_with("origin/") { oid(2) } else { oid(1) })
                }
                Action::ResolveRevision { id } if id.0 == "root" => Reply::Id(oid(1)),
                Action::ResolveRevision { .. } => Reply::Id(oid(4)),
                Action::TreeOf { commit } => Reply::Id(oid(commit.bytes[0] + 10)),
                Action::MergeBase { .. } => Reply::Id(oid(1)),
                Action::CreateCommit { .. } => Reply::Id(oid(6)),
                Action::CreatePullRequest { .. } => {
                    number += 1;
                    Reply::Number(number)
                }
                Action::PullRequestUrl { number } => Reply::Text(format!("https://pr/{}", number)),
                Action::GithubBody { .. } => Reply::Text("body".into()),
                Action::AskMessage => panic!("a message was given"),
                _ => Reply::Done,
            }
        };
        assert!(action.accepts(&reply), "{:?} {:?}", action, reply);
        asked.push(action);
        match stacked(&config, &opts, command, reply) {
            Step::Waiting(next) => command = next,
            Step::Finished(outcome) => return (asked, outcome),
        }
    }
}

fn kinds(asked: &[Action]) -> Vec<String> {
    asked
        .iter()
        .map(|action| {
            let text = format!("{:?}", action);
            text.split(' ').next().unwrap().to_string()
        })
        .collect()
}

#[test]
fn empty_stack_is_left() {
    let (asked, outcome) = run(Vec::new(), Vec::new(), None);
    assert!(outcome.is_ok());
    assert_eq!(asked.len(), 2);
    match &asked[0] {
        Action::ReadRevisions { revset } => {
            assert_eq!(revset, "::@ ~ (immutable() | description(exact:\"\"))")
        }
        other => panic!("{:?}", other),
    }
    match &asked[1] {
        Action::Output { icon, text } => {
            assert_eq!(icon, "👋");
            assert_eq!(text, "No commits found - nothing to do. Good bye!");
        }
        other => panic!("{:?}", other),
    }
}

#[test]
fn merge_commits_are_refused() {
    let id = "q\"x\n";
    let (asked, outcome) = run(
        vec![
            revision("a", &["root"], None),
            revision(id, &["a", "b"], None),
            revision("c", &[], None),
        ],
        Vec::new(),
        None,
    );
    assert_eq!(asked.len(), 1);
    let expected =
        format!("Found commit with more than one parent {:?}", ChangeId::from_str(id.into()));
    assert_eq!(expected, "Found commit with more than one parent ChangeId(\"q\\\"x\\n\")");
    assert_eq!(outcome.unwrap_err().messages(), &[expected]);
}

#[test]
fn revisions_without_parents_are_refused() {
    let (asked, outcome) = run(vec![revision("c", &[], None)], Vec::new(), None);
    assert_eq!(asked.len(), 1);
    assert_eq!(
        outcome.unwrap_err().messages(),
        &["Found commit with more than one parent ChangeId(\"c\")"]
    );
    assert_eq!(
        odd_error("\"c\"").messages(),
        &["Found commit with more than one parent ChangeId(\"c\")"]
    );
}

#[test]
fn stack_is_published_after_all_pushes() {
    let (asked, outcome) = run(
        vec![revision("a", &["root"], None), revision("b", &["a"], None)],
        Vec::new(),
        None,
    );
    assert!(outcome.is_ok());
    assert_eq!(
        kinds(&asked),
        vec![
            "ReadRevisions",
            "ResolveRevision",
            "FetchPullRequests",
            "NewBranchName",
            "ResolveRef",
            "ResolveRef",
            "TreeOf",
            "ResolveRevision",
            "TreeOf",
            "MergeBase",
            "CreateCommit",
            "Push",
            "NewBranchName",
            "ResolveRef",
            "ResolveRef",
            "TreeOf",
            "ResolveRevision",
            "TreeOf",
            "MergeBase",
            "GithubBody",
            "CreateCommit",
            "Push",
            "CreatePullRequest",
            "PullRequestUrl",
            "Output",
            "UpdateMessage",
            "CreatePullRequest",
            "PullRequestUrl",
            "Output",
            "UpdateMessage",
        ]
    );
    assert!(matches!(&asked[1], Action::ResolveRevision { id } if id.0 == "root"));
    assert!(
        matches!(&asked[4], Action::ResolveRef { name } if name == "0101010101010101010101010101010101010101")
    );
    assert!(matches!(&asked[13], Action::ResolveRef { name } if name == "origin/title-a"));
    match &asked[22] {
        Action::CreatePullRequest { message, base_branch, head_branch, draft } => {
            assert_eq!(message.title.as_deref(), Some("Title a"));
            assert_eq!(
                message.last_commit.as_deref(),
                Some("0606060606060606060606060606060606060606")
            );
            assert_eq!(base_branch, "main");
            assert_eq!(head_branch, "title-a");
            assert!(!draft);
        }
        other => panic!("{:?}", other),
    }
    match &asked[24] {
        Action::Output { icon, text } => {
            assert_eq!(icon, "✨");
            assert_eq!(text, "Created new Pull Request #101: https://pr/101");
        }
        other => panic!("{:?}", other),
    }
    match &asked[25] {
        Action::UpdateMessage { revision } => {
            assert_eq!(revision.id.0, "a");
            assert_eq!(revision.message.pull_request.as_deref(), Some("https://pr/101"));
        }
        other => panic!("{:?}", other),
    }
    match &asked[26] {
        Action::CreatePullRequest { base_branch, head_branch, .. } => {
            assert_eq!(base_branch, "title-a");
            assert_eq!(head_branch, "title-b");
        }
        other => panic!("{:?}", other),
    }
}

#[test]
fn existing_pull_requests_are_kept() {
    let (asked, outcome) = run(
        vec![
            revision("a", &["root"], Some(7)),
            revision("b", &["a"], None),
            revision("c", &["b"], Some(9)),
        ],
        vec![
            Ok(PullRequest { number: 7, head: branch("seven"), base: branch("main") }),
            Ok(PullRequest { number: 9, head: branch("nine"), base: branch("eight") }),
        ],
        None,
    );
    assert!(outcome.is_ok());
    assert!(
        matches!(&asked[2], Action::FetchPullRequests { numbers } if *numbers == vec![7, 9])
    );
    let refs: Vec<&str> = asked
        .iter()
        .filter_map(|action| match action {
            Action::ResolveRef { name } => Some(name.as_str()),
            _ => None,
        })
        .collect();
    assert_eq!(
        refs,
        vec![
            "0101010101010101010101010101010101010101",
            "origin/seven",
            "origin/seven",
            "origin/title-b",
            "refs/remotes/origin/eight",
            "origin/nine",
        ]
    );
    let published: Vec<String> = kinds(&asked)
        .into_iter()
        .filter(|kind| kind == "CreatePullRequest" || kind == "UpdateMessage")
        .collect();
    assert_eq!(
        published,
        vec!["UpdateMessage", "CreatePullRequest", "UpdateMessage", "UpdateMessage"]
    );
    match asked.last() {
        Some(Action::UpdateMessage { revision }) => {
            assert_eq!(revision.id.0, "c");
            assert_eq!(revision.message.pull_request, None);
        }
        other => panic!("{:?}", other),
    }
}

#[test]
fn every_message_is_written_back_once_and_in_order() {
    let written = |fail_at: Option<usize>| {
        let (asked, outcome) = run(
            vec![
                revision("a", &["root"], Some(7)),
                revision("b", &["a"], None),
                revision("c", &["b"], None),
            ],
            vec![Ok(PullRequest { number: 7, head: branch("seven"), base: branch("main") })],
            fail_at,
        );
        let count = asked.len();
        let written: Vec<(String, Option<String>, Option<String>)> = asked
            .into_iter()
            .filter_map(|action| match action {
                Action::UpdateMessage { revision } => Some((
                    revision.id.0,
                    revision.message.pull_request,
                    revision.message.last_commit,
                )),
                _ => None,
            })
            .collect();
        (written, count, outcome.is_ok())
    };
    let commit = Some("06".repeat(20));
    let expected = vec![
        ("a".to_string(), None, commit.clone()),
        ("b".to_string(), Some("https://pr/101".to_string()), commit.clone()),
        ("c".to_string(), Some("https://pr/102".to_string()), commit.clone()),
    ];
    let (all, count, ended_well) = written(None);
    assert!(ended_well);
    assert_eq!(all, expected);
    // Where the pull request of the last revision fails, its message is not written.
    let (some, _, ended_well) = written(Some(count - 4));
    assert!(!ended_well);
    assert_eq!(some, expected[..2].to_vec());
}

#[test]
fn address_written_back_is_that_of_the_new_pull_request() {
    let (asked, outcome) = run(
        vec![revision("a", &["root"], None), revision("b", &["a"], None)],
        Vec::new(),
        None,
    );
    assert!(outcome.is_ok());
    let first = asked
        .iter()
        .position(|action| matches!(action, Action::CreatePullRequest { .. }))
        .unwrap();
    let published = &asked[first..];
    assert_eq!(published.len(), 8);
    for (turn, id) in ["a", "b"].iter().enumerate() {
        let number = 101 + turn as u64;
        let url = format!("https://pr/{}", number);
        match &published[4 * turn..4 * turn + 4] {
            [Action::CreatePullRequest { message, .. }, Action::PullRequestUrl { number: asked_for }, Action::Output { text, .. }, Action::UpdateMessage { revision }] =>
            {
                assert_eq!(*asked_for, number);
                assert_eq!(*text, format!("Created new Pull Request #{}: {}", number, url));
                assert_eq!(revision.id.0, *id);
                assert_eq!(revision.message.pull_request.as_deref(), Some(url.as_str()));
                assert_eq!(message.pull_request, None);
                assert_eq!(message.title, revision.message.title);
                assert_eq!(message.last_commit, revision.message.last_commit);
            }
            other => panic!("{:?}", other),
        }
    }
}

#[test]
fn first_fetch_that_fails_ends_the_command() {
    let (asked, outcome) = run(
        vec![revision("a", &["root"], Some(7)), revision("b", &["a"], Some(8))],
        vec![Err(Error::new("seven")), Err(Error::new("eight"))],
        None,
    );
    assert_eq!(asked.len(), 3);
    assert_eq!(outcome.unwrap_err().messages(), &["seven"]);
}

#[test]
fn failures_end_the_command() {
    let said = |at: usize| {
        let (asked, outcome) = run(vec![revision("a", &["root"], None)], Vec::new(), Some(at));
        assert_eq!(asked.len(), at + 1);
        outcome.unwrap_err().messages().clone()
    };
    // Reading, the trunk, fetching, a name for the branch.
    assert_eq!(said(0), vec!["cause"]);
    assert_eq!(said(1), vec!["cause"]);
    assert_eq!(said(2), vec!["cause"]);
    assert_eq!(said(3), vec!["cause"]);
    // The base, the tree of the head, the commit, the push.
    assert_eq!(said(4), vec!["cause", "do_stacked"]);
    assert_eq!(said(6), vec!["cause", "tree_oid_for_commit", "do_stacked"]);
    assert_eq!(said(10), vec!["cause", "derive commit", "do_stacked"]);
    assert_eq!(said(11), vec!["git push failed", "do_stacked"]);
    // The pull request, telling of it, writing it back.
    assert_eq!(said(12), vec!["cause"]);
    assert_eq!(said(14), vec!["cause"]);
    assert_eq!(said(15), vec!["cause"]);
}

#[test]
fn missing_branch_is_no_failure() {
    let (asked, outcome) = run(vec![revision("a", &["root"], None)], Vec::new(), Some(5));
    assert!(outcome.is_ok());
    assert!(matches!(&asked[6], Action::TreeOf { commit } if *commit == oid(1)));
}

#[test]
fn outcomes_are_collected_up_to_the_first_failure() {
    assert_eq!(collect_futures(vec![Ok(1), Ok(2)]).unwrap(), vec![1, 2]);
    assert_eq!(collect_futures::<u8>(Vec::new()).unwrap(), Vec::<u8>::new());
    let outcomes: Vec<Result<u8>> = vec![Ok(1), Err(Error::new("a")), Err(Error::new("b"))];
    assert_eq!(collect_futures(outcomes).unwrap_err().messages(), &["a"]);
}
