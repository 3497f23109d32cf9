//! What the command asks for, and what it is told.

use vstd::prelude::*;

use crate::error::{Error, Result};
use crate::github::{PullRequest, PullRequestView};
use crate::jj::{ChangeId, Revision, RevisionView};
use crate::message::{Message, MessageView};
use crate::oid::Oid;
use crate::stacked::Trail;
use crate::text::views;

verus! {

/// Something that the command wants done.
#[derive(Debug)]
pub enum Action {
    /// Read the revisions of a revset, the oldest first.
    ReadRevisions { revset: String },
    /// Find the commit of a revision.
    ResolveRevision { id: ChangeId },
    /// Fetch pull requests.
    FetchPullRequests { numbers: Vec<u64> },
    /// Make up an unused branch name for a change with this title.
    NewBranchName { title: String },
    /// Find the object that a git ref names.
    ResolveRef { name: String },
    /// Find the tree of a commit.
    TreeOf { commit: Oid },
    /// Find the merge base of two commits.
    MergeBase { one: Oid, two: Oid },
    /// Write the body of a pull request with this message.
    GithubBody { message: Message },
    /// Ask the user for a commit message.
    AskMessage,
    /// Create a commit that has its authorship from another one.
    CreateCommit { original: Oid, text: String, tree: Oid, parents: Vec<Oid> },
    /// Run git in the repository.
    Push { args: Vec<String> },
    /// Find the address of a pull request.
    PullRequestUrl { number: u64 },
    /// Tell the user.
    Output { icon: String, text: String },
    /// Create a pull request.
    CreatePullRequest { message: Message, base_branch: String, head_branch: String, draft: bool },
    /// Write the message of a revision back.
    UpdateMessage { revision: Revision },
}

/// What an [`Action`] says.
#[verifier::ext_equal]
pub enum ActionView {
    ReadRevisions { revset: Seq<char> },
    ResolveRevision { id: Seq<char> },
    FetchPullRequests { numbers: Seq<u64> },
    NewBranchName { title: Seq<char> },
    ResolveRef { name: Seq<char> },
    TreeOf { commit: Oid },
    MergeBase { one: Oid, two: Oid },
    GithubBody { message: MessageView },
    AskMessage,
    CreateCommit { original: Oid, text: Seq<char>, tree: Oid, parents: Seq<Oid> },
    Push { args: Seq<Seq<char>> },
    PullRequestUrl { number: u64 },
    Output { icon: Seq<char>, text: Seq<char> },
    CreatePullRequest {
        message: MessageView,
        base_branch: Seq<char>,
        head_branch: Seq<char>,
        draft: bool,
    },
    UpdateMessage { revision: RevisionView },
}

impl View for Action {
    type V = ActionView;

    open spec fn view(&self) -> ActionView {
        match *self {
            Action::ReadRevisions { revset } => ActionView::ReadRevisions { revset: revset@ },
            Action::ResolveRevision { id } => ActionView::ResolveRevision { id: id@ },
            Action::FetchPullRequests { numbers } => ActionView::FetchPullRequests {
                numbers: numbers@,
            },
            Action::NewBranchName { title } => ActionView::NewBranchName { title: title@ },
            Action::ResolveRef { name } => ActionView::ResolveRef { name: name@ },
            Action::TreeOf { commit } => ActionView::TreeOf { commit },
            Action::MergeBase { one, two } => ActionView::MergeBase { one, two },
            Action::GithubBody { message } => ActionView::GithubBody { message: message@ },
            Action::AskMessage => ActionView::AskMessage,
            Action::CreateCommit { original, text, tree, parents } => ActionView::CreateCommit {
                original,
                text: text@,
                tree,
                parents: parents@,
            },
            Action::Push { args } => ActionView::Push { args: views(args@) },
            Action::PullRequestUrl { number } => ActionView::PullRequestUrl { number },
            Action::Output { icon, text } => ActionView::Output { icon: icon@, text: text@ },
            Action::CreatePullRequest { message, base_branch, head_branch, draft } =>
            ActionView::CreatePullRequest {
                message: message@,
                base_branch: base_branch@,
                head_branch: head_branch@,
                draft,
            },
            Action::UpdateMessage { revision } => ActionView::UpdateMessage { revision: revision@ },
        }
    }
}

/// How an action went.
#[derive(Debug)]
pub enum Reply {
    /// It failed.
    Failed(Error),
    /// It was done.
    Done,
    /// It found or created an object.
    Id(Oid),
    /// It came up with a text.
    Text(String),
    /// It created the pull request with this number.
    Number(u64),
    /// It read these revisions.
    Revisions(Vec<Revision>),
    /// It fetched pull requests, or failed to, one for each number asked for.
    PullRequests(Vec<Result<PullRequest>>),
}

/// What a [`Reply`] says.
#[verifier::ext_equal]
pub enum ReplyView {
    Failed(Trail),
    Done,
    Id(Oid),
    Text(Seq<char>),
    Number(u64),
    Revisions(Seq<RevisionView>),
    PullRequests(Seq<std::result::Result<PullRequestView, Trail>>),
}

/// The view of a fetched pull request.
pub open spec fn fetched_view(fetched: Result<PullRequest>) -> std::result::Result<
    PullRequestView,
    Trail,
> {
    match fetched {
        Ok(pull_request) => Ok(pull_request@),
        Err(error) => Err(error@),
    }
}

impl View for Reply {
    type V = ReplyView;

    open spec fn view(&self) -> ReplyView {
        match *self {
            Reply::Failed(error) => ReplyView::Failed(error@),
            Reply::Done => ReplyView::Done,
            Reply::Id(id) => ReplyView::Id(id),
            Reply::Text(text) => ReplyView::Text(text@),
            Reply::Number(number) => ReplyView::Number(number),
            Reply::Revisions(revisions) => ReplyView::Revisions(views(revisions@)),
            Reply::PullRequests(fetched) => ReplyView::PullRequests(
                fetched@.map_values(|one: Result<PullRequest>| fetched_view(one)),
            ),
        }
    }
}

impl ActionView {
    /// Whether a reply is of the kind that an action can have. Only the two
    /// actions that look nothing up, writing a body and naming an address, cannot
    /// fail.
    pub open spec fn admits(self, reply: ReplyView) -> bool {
        match self {
            ActionView::GithubBody { .. } => reply is Text,
            ActionView::PullRequestUrl { .. } => reply is Text,
            _ => reply is Failed || match self {
                ActionView::ReadRevisions { .. } => reply is Revisions,
                ActionView::FetchPullRequests { numbers } => match reply {
                    ReplyView::PullRequests(fetched) => fetched.len() == numbers.len(),
                    _ => false,
                },
                ActionView::NewBranchName { .. } => reply is Text,
                ActionView::AskMessage => reply is Text,
                ActionView::CreatePullRequest { .. } => reply is Number,
                ActionView::Push { .. } => reply is Done,
                ActionView::Output { .. } => reply is Done,
                ActionView::UpdateMessage { .. } => reply is Done,
                _ => reply is Id,
            },
        }
    }
}

impl Action {
    /// Whether a reply is of the kind that this action can have.
    pub fn accepts(&self, reply: &Reply) -> (r: bool)
        ensures
            r == self@.admits(reply@),
    {
        match (self, reply) {
            (Action::GithubBody { .. }, Reply::Text(_)) => true,
            (Action::GithubBody { .. }, _) => false,
            (Action::PullRequestUrl { .. }, Reply::Text(_)) => true,
            (Action::PullRequestUrl { .. }, _) => false,
            (_, Reply::Failed(_)) => true,
            (Action::ReadRevisions { .. }, Reply::Revisions(_)) => true,
            (Action::FetchPullRequests { numbers }, Reply::PullRequests(fetched)) => {
                fetched.len() == numbers.len()
            },
            (Action::NewBranchName { .. }, Reply::Text(_)) => true,
            (Action::AskMessage, Reply::Text(_)) => true,
            (Action::CreatePullRequest { .. }, Reply::Number(_)) => true,
            (Action::Push { .. }, Reply::Done) => true,
            (Action::Output { .. }, Reply::Done) => true,
            (Action::UpdateMessage { .. }, Reply::Done) => true,
            (Action::ResolveRevision { .. }, Reply::Id(_)) => true,
            (Action::ResolveRef { .. }, Reply::Id(_)) => true,
            (Action::TreeOf { .. }, Reply::Id(_)) => true,
            (Action::MergeBase { .. }, Reply::Id(_)) => true,
            (Action::CreateCommit { .. }, Reply::Id(_)) => true,
            _ => false,
        }
    }
}

/// What each action can be answered with. All but two can fail. Looking something
/// up or creating a commit gives an object, making up a name or asking the user a
/// text, creating a pull request its number; pull requests are fetched one for each
/// number asked for; what is only done is done.
pub proof fn law_actions_have_their_replies(action: ActionView, reply: ReplyView)
    ensures
        action is GithubBody || action is PullRequestUrl ==> (action.admits(reply)
            <==> reply is Text),
        !(action is GithubBody || action is PullRequestUrl) && reply is Failed ==> action.admits(
            reply,
        ),
        action.admits(reply) && !(reply is Failed) ==> match reply {
            ReplyView::Failed(_) => true,
            ReplyView::Done => action is Push || action is Output || action is UpdateMessage,
            ReplyView::Id(_) => action is ResolveRevision || action is ResolveRef
                || action is TreeOf || action is MergeBase || action is CreateCommit,
            ReplyView::Text(_) => action is NewBranchName || action is AskMessage
                || action is GithubBody || action is PullRequestUrl,
            ReplyView::Number(_) => action is CreatePullRequest,
            ReplyView::Revisions(_) => action is ReadRevisions,
            ReplyView::PullRequests(fetched) => action matches ActionView::FetchPullRequests {
                numbers,
            } && fetched.len() == numbers.len(),
        },
        reply is Done && (action is Push || action is Output || action is UpdateMessage)
            ==> action.admits(reply),
        reply is Id && (action is ResolveRevision || action is ResolveRef || action is TreeOf
            || action is MergeBase || action is CreateCommit) ==> action.admits(reply),
        reply is Text && (action is NewBranchName || action is AskMessage) ==> action.admits(reply),
        reply is Number && action is CreatePullRequest ==> action.admits(reply),
        reply is Revisions && action is ReadRevisions ==> action.admits(reply),
        reply matches ReplyView::PullRequests(fetched) ==> (
        action matches ActionView::FetchPullRequests { numbers } ==> (fetched.len()
            == numbers.len() ==> action.admits(reply))),
{
}

/// An action says what it holds, field by field.
pub proof fn law_action_says_what_it_holds(action: Action)
    ensures
        match action {
            Action::ReadRevisions { revset } => action@ == (ActionView::ReadRevisions {
                revset: revset@,
            }),
            Action::ResolveRevision { id } => action@ == (ActionView::ResolveRevision {
                id: id.0@,
            }),
            Action::FetchPullRequests { numbers } => action@ == (ActionView::FetchPullRequests {
                numbers: numbers@,
            }),
            Action::NewBranchName { title } => action@ == (ActionView::NewBranchName {
                title: title@,
            }),
            Action::ResolveRef { name } => action@ == (ActionView::ResolveRef { name: name@ }),
            Action::TreeOf { commit } => action@ == (ActionView::TreeOf { commit }),
            Action::MergeBase { one, two } => action@ == (ActionView::MergeBase { one, two }),
            Action::GithubBody { message } => action@ == (ActionView::GithubBody {
                message: message@,
            }),
            Action::AskMessage => action@ == ActionView::AskMessage,
            Action::CreateCommit { original, text, tree, parents } => action@ == (
            ActionView::CreateCommit { original, text: text@, tree, parents: parents@ }),
            Action::Push { args } => action@ is Push && action@->args.len() == args@.len()
                && forall|i: int|
                0 <= i < args@.len() ==> #[trigger] action@->args[i] == args@[i]@,
            Action::PullRequestUrl { number } => action@ == (ActionView::PullRequestUrl {
                number,
            }),
            Action::Output { icon, text } => action@ == (ActionView::Output {
                icon: icon@,
                text: text@,
            }),
            Action::CreatePullRequest { message, base_branch, head_branch, draft } => action@ == (
            ActionView::CreatePullRequest {
                message: message@,
                base_branch: base_branch@,
                head_branch: head_branch@,
                draft,
            }),
            Action::UpdateMessage { revision } => action@ == (ActionView::UpdateMessage {
                revision: revision@,
            }),
        },
{
}

/// A reply says what it holds, field by field.
pub proof fn law_reply_says_what_it_holds(reply: Reply)
    ensures
        match reply {
            Reply::Failed(error) => reply@ == ReplyView::Failed(error@),
            Reply::Done => reply@ == ReplyView::Done,
            Reply::Id(id) => reply@ == ReplyView::Id(id),
            Reply::Text(text) => reply@ == ReplyView::Text(text@),
            Reply::Number(number) => reply@ == ReplyView::Number(number),
            Reply::Revisions(revisions) => reply@ is Revisions && reply@->Revisions_0.len()
                == revisions@.len() && forall|i: int|
                0 <= i < revisions@.len() ==> #[trigger] reply@->Revisions_0[i] == revisions@[i]@,
            Reply::PullRequests(fetched) => reply@ is PullRequests
                && reply@->PullRequests_0.len() == fetched@.len() && forall|i: int|
                0 <= i < fetched@.len() ==> match fetched@[i] {
                    Ok(pull_request) => #[trigger] reply@->PullRequests_0[i] == Ok::<
                        PullRequestView,
                        Trail,
                    >(pull_request@),
                    Err(error) => reply@->PullRequests_0[i] == Err::<PullRequestView, Trail>(
                        error@,
                    ),
                },
        },
{
}

} // verus!
