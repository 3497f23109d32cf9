use std::collections::{HashMap, HashSet};

use spr::config::Config;
use spr::error::{Error, Result};
use spr::github::{GitHubBranch, PullRequest};
use spr::jj::{ChangeId, Revision};
use spr::message::Message;
use spr::oid::Oid;
use spr::stacked::branches::Entry;
use spr::stacked::{
    handle_revs, start_revs, Action, BranchAction, Reply, StackedOptions, Step,
};

/// A repository that lives in memory, with a bare one that it pushes to.
struct Repo {
    commits: HashMap<[u8; 20], (Oid, Vec<Oid>)>,
    changes: HashMap<String, Oid>,
    bare: HashMap<String, Oid>,
    outputs: Vec<String>,
    commit_texts: Vec<String>,
    head: Oid,
}

fn named(text: &str) -> Oid {
    let oid = git2::Oid::hash_object(git2::ObjectType::Blob, text.as_bytes()).unwrap();
    Oid { bytes: <[u8; 20]>::try_from(oid.as_bytes()).unwrap() }
}

fn parsed(hex: &str) -> Option<Oid> {
    if hex.len() != 40 {
        return None;
    }
    let oid = git2::Oid::from_str(hex).ok()?;
    Some(Oid { bytes: <[u8; 20]>::try_from(oid.as_bytes()).unwrap() })
}

impl Repo {
    fn with_origin() -> Repo {
        let mut repo = Repo {
            commits: HashMap::new(),
            changes: HashMap::new(),
            bare: HashMap::new(),
            outputs: Vec::new(),
            commit_texts: Vec::new(),
            head: named("nothing"),
        };
        let root = repo.commit(named("root tree"), Vec::new());
        repo.bare.insert("main".into(), root);
        repo.head = root;
        repo
    }

    fn commit(&mut self, tree: Oid, parents: Vec<Oid>) -> Oid {
        let id = named(&format!("commit {} {:?} {:?}", self.commits.len(), tree, parents));
        self.commits.insert(id.bytes, (tree, parents));
        id
    }

    fn create_jujutsu_commit(&mut self, message: &str, content: &str) -> String {
        let head = self.head;
        let commit = self.commit(named(content), vec![head]);
        let id = format!("change-{}", self.changes.len());
        self.changes.insert(id.clone(), commit);
        self.head = commit;
        self.commit_texts.push(message.into());
        id
    }

    fn rewrite(&mut self, id: &str, content: &str, parents: Vec<Oid>) {
        let commit = self.commit(named(content), parents);
        self.changes.insert(id.into(), commit);
        self.head = commit;
    }

    fn parents_of(&self, commit: Oid) -> Vec<Oid> {
        self.commits[&commit.bytes].1.clone()
    }

    fn ancestors(&self, commit: Oid) -> HashSet<[u8; 20]> {
        let mut seen = HashSet::new();
        let mut queue = vec![commit];
        while let Some(next) = queue.pop() {
            if seen.insert(next.bytes) {
                queue.extend(self.parents_of(next));
            }
        }
        seen
    }

    fn merge_base(&self, one: Oid, two: Oid) -> Option<Oid> {
        let others = self.ancestors(two);
        let common: Vec<Oid> = self
            .ancestors(one)
            .into_iter()
            .filter(|bytes| others.contains(bytes))
            .map(|bytes| Oid { bytes })
            .collect();
        common.iter().copied().find(|candidate| {
            common
                .iter()
                .all(|other| other == candidate || !self.ancestors(*other).contains(&candidate.bytes))
        })
    }

    fn resolve(&self, name: &str) -> Option<Oid> {
        if let Some(oid) = parsed(name) {
            return Some(oid);
        }
        let name = name.strip_prefix("refs/remotes/").unwrap_or(name);
        let branch = name.strip_prefix("origin/")?;
        self.bare.get(branch).copied()
    }

    fn perform(&mut self, action: &Action) -> Reply {
        let found = |oid: Option<Oid>| match oid {
            Some(oid) => Reply::Id(oid),
            None => Reply::Failed(Error::new("not found")),
        };
        match action {
            Action::NewBranchName { title } => {
                Reply::Text(format!("spr/test/{}", title.to_lowercase().replace(' ', "-")))
            }
            Action::ResolveRef { name } => found(self.resolve(name)),
            Action::ResolveRevision { id } => found(self.changes.get(&id.0).copied()),
            Action::TreeOf { commit } => found(self.commits.get(&commit.bytes).map(|c| c.0)),
            Action::MergeBase { one, two } => found(self.merge_base(*one, *two)),
            Action::GithubBody { .. } => Reply::Text("body".into()),
            Action::AskMessage => Reply::Text("asked".into()),
            Action::CreateCommit { text, tree, parents, .. } => {
                self.commit_texts.push(text.clone());
                Reply::Id(self.commit(*tree, parents.clone()))
            }
            Action::Push { args } => {
                assert_eq!(&args[..5], &["push", "--atomic", "--no-verify", "--", "origin"]);
                let (commit, branch) = args[5].split_once(":refs/heads/").unwrap();
                let commit = parsed(commit).unwrap();
                if let Some(before) = self.bare.get(branch) {
                    assert!(
                        self.ancestors(commit).contains(&before.bytes),
                        "push is not a fast-forward"
                    );
                }
                self.bare.insert(branch.into(), commit);
                Reply::Done
            }
            Action::PullRequestUrl { number } => Reply::Text(format!("https://pr/{}", number)),
            Action::Output { icon, text } => {
                self.outputs.push(format!("{} {}", icon, text));
                Reply::Done
            }
            _ => panic!("{:?} is not part of an update", action),
        }
    }

    fn read_revision(&self, id: &str, title: &str, parent: &str) -> Revision {
        Revision {
            id: ChangeId::from_str(id.into()),
            parent_ids: vec![ChangeId::from_str(parent.into())],
            pull_request_number: None,
            message: Message {
                title: Some(title.into()),
                last_commit: None,
                pull_request: None,
                others: Vec::new(),
            },
        }
    }

    fn handle_revs(
        &mut self,
        revisions: Vec<(Revision, Option<PullRequest>)>,
        trunk_oid: Oid,
    ) -> Result<Vec<BranchAction>> {
        let config = basic_config();
        let opts = StackedOptions { message: Some("".into()) };
        let entries = revisions
            .into_iter()
            .map(|(revision, pull_request)| Entry { revision, pull_request })
            .collect();
        let mut step = start_revs(&config, entries, trunk_oid);
        loop {
            match step {
                Step::Finished(outcome) => return outcome,
                Step::Waiting(branches) => {
                    let action = branches.request(&config);
                    let reply = self.perform(&action);
                    assert!(action.accepts(&reply));
                    step = handle_revs(&config, &opts, branches, reply);
                }
            }
        }
    }

    fn find_branch(&self, name: &str) -> Oid {
        *self.bare.get(name).expect("Expected to find branch on bare upstream")
    }
}

fn basic_config() -> Config {
    Config { remote_name: "origin".into(), master_branch: "main".into() }
}

fn branch(name: &str) -> GitHubBranch {
    GitHubBranch {
        branch_name: name.into(),
        local: format!("refs/remotes/origin/{}", name),
        is_master_branch: name == "main",
    }
}

fn pull_request(base: &str, head: &str) -> Option<PullRequest> {
    Some(PullRequest { number: 1, base: branch(base), head: branch(head) })
}

#[test]
fn test_single_on_head() {
    let mut repo = Repo::with_origin();
    let trunk_oid = repo.head;

    let rev = repo.create_jujutsu_commit("Test commit", "file 1");
    let change = repo.read_revision(&rev, "Test commit", "root");
    let _ = repo
        .handle_revs(vec![(change, None)], trunk_oid)
        .expect("Expected to get branch name");

    let pr_oid = repo.find_branch("spr/test/test-commit");
    assert!(trunk_oid != pr_oid, "PR and trunk should not be equal");
    assert!(
        repo.merge_base(pr_oid, trunk_oid).expect("Failed to get merge oid") == trunk_oid,
        "PR branch was not based on trunk"
    );
}

#[test]
fn test_update_pr_on_change() {
    let mut repo = Repo::with_origin();
    let trunk_oid = repo.head;

    let rev = repo.create_jujutsu_commit("Test commit", "file 1");
    let change = repo.read_revision(&rev, "Test commit", "root");
    let _ = repo
        .handle_revs(vec![(change.clone(), None)], trunk_oid)
        .expect("Expected to get branch name");
    let initial_pr_oid = repo.find_branch("spr/test/test-commit");

    repo.rewrite(&rev, "file 2", vec![trunk_oid]);
    let _ = repo
        .handle_revs(
            vec![(change.clone(), pull_request("main", "spr/test/test-commit"))],
            trunk_oid,
        )
        .expect("Expected to get branch name");
    let pr_oid = repo.find_branch("spr/test/test-commit");
    assert!(pr_oid != initial_pr_oid);
    assert!(
        repo.merge_base(pr_oid, initial_pr_oid).expect("Failed to get merge oid")
            == initial_pr_oid,
        "PR branch was not based on previous commit"
    );
}

#[test]
fn test_stack_on_existing() {
    let mut repo = Repo::with_origin();
    let trunk_oid = repo.head;

    let rev = repo.create_jujutsu_commit("Test commit", "file 1");
    let change = repo.read_revision(&rev, "Test commit", "root");
    let _ = repo
        .handle_revs(vec![(change.clone(), None)], trunk_oid)
        .expect("Expected to get branch name");
    let initial_pr_oid = repo.find_branch("spr/test/test-commit");

    let child_rev = repo.create_jujutsu_commit("Test other commit", "file other");
    let child_change = repo.read_revision(&child_rev, "Test other commit", &rev);
    let _ = repo
        .handle_revs(
            vec![
                (change.clone(), pull_request("main", "spr/test/test-commit")),
                (child_change.clone(), None),
            ],
            trunk_oid,
        )
        .expect("Expected to get branch name");
    let pr_oid = repo.find_branch("spr/test/test-commit");
    assert_eq!(pr_oid, initial_pr_oid, "PR was changed while pushing child");

    let child_pr_oid = repo.find_branch("spr/test/test-other-commit");
    assert!(
        repo.merge_base(pr_oid, child_pr_oid).expect("Failed to get merge oid") == pr_oid,
        "child PR branch was not based on PR"
    );
}

#[test]
fn stack_multi_in_pr() {
    let mut repo = Repo::with_origin();
    let trunk_oid = repo.head;

    let rev = repo.create_jujutsu_commit("Test commit", "file 1");
    let change = repo.read_revision(&rev, "Test commit", "root");
    let child_rev = repo.create_jujutsu_commit("Test other commit", "file other");
    let child_change = repo.read_revision(&child_rev, "Test other commit", &rev);
    let actions = repo
        .handle_revs(vec![(change.clone(), None), (child_change.clone(), None)], trunk_oid)
        .expect("Expected to get branch name");
    assert_eq!(actions.len(), 2);
    assert_eq!(actions[0].base_branch, "main");
    assert_eq!(actions[1].base_branch, "spr/test/test-commit");

    let pr_oid = repo.find_branch("spr/test/test-commit");
    assert!(pr_oid != trunk_oid, "base PR was equal to trunk");
    let child_pr_oid = repo.find_branch("spr/test/test-other-commit");
    assert!(
        repo.merge_base(pr_oid, child_pr_oid).expect("Failed to get merge oid") == pr_oid,
        "child PR branch was not based on PR"
    );
}

#[test]
fn no_rebase_when_change_is_not_rebased() {
    let mut repo = Repo::with_origin();
    let trunk_oid = repo.head;

    let rev = repo.create_jujutsu_commit("Test commit", "file 1");
    let change = repo.read_revision(&rev, "Test commit", "root");
    let _ = repo
        .handle_revs(vec![(change.clone(), None)], trunk_oid)
        .expect("Expected to get branch name");
    let initial_pr_oid = repo.find_branch("spr/test/test-commit");

    repo.head = trunk_oid;
    let _ = repo.create_jujutsu_commit("New head", "file 3");
    let updated_trunk_oid = repo.head;
    repo.bare.insert("main".into(), updated_trunk_oid);

    let _ = repo
        .handle_revs(
            vec![(change.clone(), pull_request("main", "spr/test/test-commit"))],
            trunk_oid,
        )
        .expect("Expected to get branch name");
    let pr_oid = repo.find_branch("spr/test/test-commit");
    assert!(
        repo.merge_base(pr_oid, initial_pr_oid).expect("Failed to get merge oid")
            == initial_pr_oid,
        "PR branch was not based on previous commit"
    );
    let head_base = repo
        .merge_base(pr_oid, updated_trunk_oid)
        .expect("Failed to get merge oid");
    assert!(head_base != updated_trunk_oid, "PR was rebased to HEAD");
    assert!(
        head_base == trunk_oid,
        "Pr HEAD is no longer based on the previous trunk"
    );
}

#[test]
fn rebase_to_new_base() {
    let mut repo = Repo::with_origin();
    let trunk_oid = repo.head;

    let rev = repo.create_jujutsu_commit("Test commit", "file 1");
    let change = repo.read_revision(&rev, "Test commit", "root");
    let _ = repo
        .handle_revs(vec![(change.clone(), None)], trunk_oid)
        .expect("Expected to get branch name");
    let initial_pr_oid = repo.find_branch("spr/test/test-commit");

    repo.head = trunk_oid;
    let _ = repo.create_jujutsu_commit("New head", "file 3");
    let updated_trunk_oid = repo.head;
    repo.bare.insert("main".into(), updated_trunk_oid);
    repo.rewrite(&rev, "file 1 on file 3", vec![updated_trunk_oid]);

    let _ = repo
        .handle_revs(
            vec![(change.clone(), pull_request("main", "spr/test/test-commit"))],
            updated_trunk_oid,
        )
        .expect("Expected to get branch name");
    let pr_oid = repo.find_branch("spr/test/test-commit");
    assert!(
        repo.merge_base(pr_oid, initial_pr_oid).expect("Failed to get merge oid")
            == initial_pr_oid,
        "PR branch was not based on previous commit"
    );
    let head_base = repo
        .merge_base(pr_oid, updated_trunk_oid)
        .expect("Failed to get merge oid");
    assert!(head_base == updated_trunk_oid, "PR was not rebased to HEAD");
    assert_eq!(repo.parents_of(pr_oid), vec![initial_pr_oid, updated_trunk_oid]);
}

#[test]
fn rebase_stacked_pr() {
    let mut repo = Repo::with_origin();
    let trunk_oid = repo.head;

    let rev = repo.create_jujutsu_commit("Test commit", "file 1");
    let change = repo.read_revision(&rev, "Test commit", "root");
    let child_rev = repo.create_jujutsu_commit("Test other commit", "file other");
    let child_change = repo.read_revision(&child_rev, "Test other commit", &rev);
    let _ = repo
        .handle_revs(vec![(change.clone(), None), (child_change.clone(), None)], trunk_oid)
        .expect("Expected to get branch name");
    let initial_child_pr_oid = repo.find_branch("spr/test/test-other-commit");

    repo.rewrite(&rev, "file 2", vec![trunk_oid]);
    let _ = repo
        .handle_revs(
            vec![
                (change.clone(), pull_request("main", "spr/test/test-commit")),
                (
                    child_change.clone(),
                    pull_request("spr/test/test-commit", "spr/test/test-other-commit"),
                ),
            ],
            trunk_oid,
        )
        .expect("Expected to get branch name");

    let pr_oid = repo.find_branch("spr/test/test-commit");
    assert!(pr_oid != trunk_oid, "base PR was equal to trunk");
    let child_pr_oid = repo.find_branch("spr/test/test-other-commit");
    assert!(
        repo.merge_base(pr_oid, child_pr_oid).expect("Failed to get merge oid") == pr_oid,
        "child PR branch was not based on PR"
    );
    assert!(
        repo.merge_base(initial_child_pr_oid, child_pr_oid).expect("Failed to get merge oid")
            == initial_child_pr_oid,
        "child PR branch was not based on initial child PR"
    );
}

#[test]
fn test_no_update_without_change() {
    let mut repo = Repo::with_origin();
    let trunk_oid = repo.head;

    let rev = repo.create_jujutsu_commit("Test commit", "file 1");
    let change = repo.read_revision(&rev, "Test commit", "root");
    let _ = repo
        .handle_revs(vec![(change.clone(), None)], trunk_oid)
        .expect("Expected to get branch name");
    let initial_pr_oid = repo.find_branch("spr/test/test-commit");
    let commits = repo.commits.len();
    let _ = repo
        .handle_revs(
            vec![(change.clone(), pull_request("main", "spr/test/test-commit"))],
            trunk_oid,
        )
        .expect("Expected to get branch name");
    let pr_oid = repo.find_branch("spr/test/test-commit");
    assert!(pr_oid == initial_pr_oid, "PR was updated without changes");
    assert_eq!(repo.commits.len(), commits);
    assert_eq!(repo.outputs, vec!["✅ No update necessary"]);
}

#[test]
fn pull_request_on_main_stays_on_main() {
    let mut repo = Repo::with_origin();
    let trunk_oid = repo.head;

    let rev = repo.create_jujutsu_commit("Test commit", "file 1");
    let change = repo.read_revision(&rev, "Test commit", "root");
    let child_rev = repo.create_jujutsu_commit("Test other commit", "file other");
    let child_change = repo.read_revision(&child_rev, "Test other commit", &rev);
    let _ = repo
        .handle_revs(vec![(change.clone(), None), (child_change.clone(), None)], trunk_oid)
        .expect("Expected to get branch name");
    let actions = repo
        .handle_revs(
            vec![
                (change.clone(), pull_request("main", "spr/test/test-commit")),
                (child_change.clone(), pull_request("main", "spr/test/test-other-commit")),
            ],
            trunk_oid,
        )
        .expect("Expected to get branch name");
    assert_eq!(actions[0].base_branch, "main");
    assert_eq!(actions[1].base_branch, "main");
    assert_eq!(actions[1].existing_nr, Some(1));
}

#[test]
fn new_branches_have_the_names_they_were_given() {
    let mut repo = Repo::with_origin();
    let trunk_oid = repo.head;

    let rev = repo.create_jujutsu_commit("Test commit", "file 1");
    let change = repo.read_revision(&rev, "Test commit", "root");
    let child_rev = repo.create_jujutsu_commit("Test other commit", "file other");
    let child_change = repo.read_revision(&child_rev, "Test other commit", &rev);
    let actions = repo
        .handle_revs(
            vec![(change.clone(), None), (child_change.clone(), None)],
            trunk_oid,
        )
        .expect("Expected to get branch name");
    assert_eq!(actions[0].head_branch, "spr/test/test-commit");
    assert_eq!(actions[1].head_branch, "spr/test/test-other-commit");
    assert_eq!(actions[0].existing_nr, None);
}
