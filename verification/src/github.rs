//! Pull requests and their branches.

use vstd::prelude::*;

verus! {

/// A branch on GitHub: its name there, the local ref that tracks it, and whether
/// it is the branch that everything is merged into.
#[derive(Debug)]
pub struct GitHubBranch {
    pub branch_name: String,
    pub local: String,
    pub is_master_branch: bool,
}

/// What a [`GitHubBranch`] says.
#[verifier::ext_equal]
pub struct GitHubBranchView {
    pub branch_name: Seq<char>,
    pub local: Seq<char>,
    pub is_master_branch: bool,
}

impl View for GitHubBranch {
    type V = GitHubBranchView;

    open spec fn view(&self) -> GitHubBranchView {
        GitHubBranchView {
            branch_name: self.branch_name@,
            local: self.local@,
            is_master_branch: self.is_master_branch,
        }
    }
}

/// A pull request: the branch that holds the change, and the one it is made
/// against.
#[derive(Debug)]
pub struct PullRequest {
    pub number: u64,
    pub head: GitHubBranch,
    pub base: GitHubBranch,
}

/// What a [`PullRequest`] says.
#[verifier::ext_equal]
pub struct PullRequestView {
    pub number: u64,
    pub head: GitHubBranchView,
    pub base: GitHubBranchView,
}

impl View for PullRequest {
    type V = PullRequestView;

    open spec fn view(&self) -> PullRequestView {
        PullRequestView { number: self.number, head: self.head@, base: self.base@ }
    }
}

/// A pull request says what it holds, field by field.
pub proof fn law_pull_request_says_what_it_holds(pull_request: PullRequest)
    ensures
        pull_request@.number == pull_request.number,
        pull_request@.head.branch_name == pull_request.head.branch_name@,
        pull_request@.head.local == pull_request.head.local@,
        pull_request@.head.is_master_branch == pull_request.head.is_master_branch,
        pull_request@.base.branch_name == pull_request.base.branch_name@,
        pull_request@.base.local == pull_request.base.local@,
        pull_request@.base.is_master_branch == pull_request.base.is_master_branch,
{
}

} // verus!
