//! The command as a whole.

use vstd::prelude::*;

use crate::config::{Config, ConfigView};
use crate::error::{Error, Result};
use crate::github::{PullRequest, PullRequestView};
use crate::jj::{quoted, Revision, RevisionView};
use crate::oid::Oid;
use crate::stacked::branches::{
    branches_step_view, handle_revs, has_place, start_revs, BranchAction, BranchActionView,
    Branches, BranchesView, Entry, EntryView,
};
use crate::stacked::exchange::{fetched_view, Action, ActionView, Reply, ReplyView};
use crate::stacked::{step_view, StackedOptions, StackedOptionsView, Step, Trail};
use crate::text::{decimal, decimal_text, join2, join3, lemma_views_push, views};

verus! {

/// The first failure among the outcomes of a row of tasks.
pub open spec fn first_failure<Value, Failure>(
    outcomes: Seq<std::result::Result<Value, Failure>>,
) -> Option<Failure>
    decreases outcomes.len(),
{
    if outcomes.len() == 0 {
        None
    } else {
        match first_failure(outcomes.drop_last()) {
            Some(failure) => Some(failure),
            None => match outcomes.last() {
                Ok(_) => None,
                Err(failure) => Some(failure),
            },
        }
    }
}

/// The values that a row of tasks came up with.
pub open spec fn outcome_values<Value, Failure>(
    outcomes: Seq<std::result::Result<Value, Failure>>,
) -> Seq<Value> {
    outcomes.map_values(|outcome: std::result::Result<Value, Failure>| outcome->Ok_0)
}

/// A failure among the first outcomes is the first failure of all.
proof fn lemma_first_failure_stays<Value, Failure>(
    outcomes: Seq<std::result::Result<Value, Failure>>,
    count: int,
)
    requires
        0 <= count <= outcomes.len(),
        first_failure(outcomes.take(count)) is Some,
    ensures
        first_failure(outcomes) == first_failure(outcomes.take(count)),
    decreases outcomes.len(),
{
    if count == outcomes.len() {
        assert(outcomes.take(count) =~= outcomes);
    } else {
        assert(outcomes.drop_last().take(count) =~= outcomes.take(count));
        lemma_first_failure_stays(outcomes.drop_last(), count);
    }
}

/// The first failure is the one with no other before it, and there is none where
/// no task failed.
pub proof fn law_first_failure<Value, Failure>(
    outcomes: Seq<std::result::Result<Value, Failure>>,
)
    ensures
        (forall|i: int| 0 <= i < outcomes.len() ==> (#[trigger] outcomes[i]) is Ok)
            <==> first_failure(outcomes) is None,
        forall|i: int|
            0 <= i < outcomes.len() && (#[trigger] outcomes[i]) is Err && (forall|j: int|
                0 <= j < i ==> (#[trigger] outcomes[j]) is Ok) ==> first_failure(outcomes) == Some(
                outcomes[i]->Err_0,
            ),
    decreases outcomes.len(),
{
    if outcomes.len() > 0 {
        let earlier = outcomes.drop_last();
        law_first_failure(earlier);
        assert(forall|i: int| 0 <= i < earlier.len() ==> earlier[i] == #[trigger] outcomes[i]);
        if first_failure(outcomes) is None {
            assert forall|i: int| 0 <= i < outcomes.len() implies (
            #[trigger] outcomes[i]) is Ok by {
                if i < earlier.len() {
                    assert(earlier[i] is Ok);
                }
            }
        }
        if forall|i: int| 0 <= i < outcomes.len() ==> (#[trigger] outcomes[i]) is Ok {
            assert forall|i: int| 0 <= i < earlier.len() implies (#[trigger] earlier[i]) is Ok by {
                assert(outcomes[i] is Ok);
            }
            assert(outcomes[outcomes.len() - 1] is Ok);
        }
        assert forall|i: int|
            0 <= i < outcomes.len() && (#[trigger] outcomes[i]) is Err && (forall|j: int|
                0 <= j < i ==> (#[trigger] outcomes[j]) is Ok) implies first_failure(outcomes)
            == Some(outcomes[i]->Err_0) by {
            assert forall|j: int| 0 <= j < i implies (#[trigger] earlier[j]) is Ok by {
                assert(outcomes[j] is Ok);
            }
            if i < earlier.len() {
                assert(earlier[i] is Err);
            }
        }
    }
}

/// Collects what a row of tasks came up with: all of it, or the first failure.
pub fn collect_futures<J>(outcomes: Vec<Result<J>>) -> (r: Result<Vec<J>>)
    ensures
        match r {
            Ok(values) => first_failure(outcomes@) is None && values@ == outcome_values(outcomes@),
            Err(error) => first_failure(outcomes@) == Some(error),
        },
        r matches Ok(values) ==> values@.len() == outcomes@.len() && forall|i: int|
            0 <= i < outcomes@.len() ==> #[trigger] outcomes@[i] == Ok::<J, Error>(values@[i]),
        r matches Err(error) ==> exists|i: int|
            0 <= i < outcomes@.len() && #[trigger] outcomes@[i] == Err::<J, Error>(error) && (
            forall|j: int| 0 <= j < i ==> (#[trigger] outcomes@[j]) is Ok),
{
    let ghost all = outcomes@;
    let mut left: Vec<Result<J>> = outcomes;
    let mut values: Vec<J> = Vec::new();
    assert(all.take(0) =~= Seq::<Result<J>>::empty());
    assert(left@ =~= all.skip(0));
    while left.len() > 0
        invariant
            all == outcomes@,
            left@.len() <= all.len(),
            left@ == all.skip(all.len() - left@.len()),
            first_failure(all.take(all.len() - left@.len())) is None,
            values@ == outcome_values(all).take(all.len() - left@.len()),
            forall|i: int|
                0 <= i < all.len() - left@.len() ==> #[trigger] all[i] == Ok::<J, Error>(
                    values@[i],
                ),
        decreases left.len(),
    {
        let ghost done = all.len() - left@.len();
        let outcome = left.remove(0);
        assert(outcome == all[done]);
        assert(left@ =~= all.skip(done + 1));
        assert(all.take(done + 1).drop_last() =~= all.take(done));
        match outcome {
            Ok(value) => {
                values.push(value);
                assert(values@ =~= outcome_values(all).take(done + 1));
            },
            Err(error) => {
                proof {
                    lemma_first_failure_stays(all, done + 1);
                }
                return Err(error);
            },
        }
    }
    assert(all.take(all.len() as int) =~= all);
    assert(values@ =~= outcome_values(all));
    Ok(values)
}

/// The numbers of the pull requests that revisions have, in the order of the
/// revisions.
pub open spec fn numbers(revisions: Seq<RevisionView>) -> Seq<u64>
    decreases revisions.len(),
{
    if revisions.len() == 0 {
        Seq::empty()
    } else {
        match revisions.last().pull_request_number {
            Some(number) => numbers(revisions.drop_last()).push(number),
            None => numbers(revisions.drop_last()),
        }
    }
}

/// Revisions with the pull requests that were fetched for those that have one.
pub open spec fn paired(
    revisions: Seq<RevisionView>,
    pull_requests: Seq<PullRequestView>,
) -> Seq<EntryView>
    decreases revisions.len(),
{
    if revisions.len() == 0 {
        Seq::empty()
    } else {
        let earlier = revisions.drop_last();
        let revision = revisions.last();
        paired(earlier, pull_requests).push(
            EntryView {
                revision,
                pull_request: match revision.pull_request_number {
                    Some(_) => Some(pull_requests[numbers(earlier).len() as int]),
                    None => None,
                },
            },
        )
    }
}

/// The first revision that does not have exactly one parent.
pub open spec fn first_odd(revisions: Seq<RevisionView>) -> Option<RevisionView>
    decreases revisions.len(),
{
    if revisions.len() == 0 {
        None
    } else {
        match first_odd(revisions.drop_last()) {
            Some(revision) => Some(revision),
            None => if revisions.last().parent_ids.len() != 1 {
                Some(revisions.last())
            } else {
                None
            },
        }
    }
}

/// What is said of a revision that does not have exactly one parent, whose name
/// in quotes this is.
pub open spec fn odd_text(quoted_id: Seq<char>) -> Seq<char> {
    "Found commit with more than one parent ChangeId("@ + quoted_id + ")"@
}

/// What is said of a new pull request.
pub open spec fn created_text(number: u64, url: Seq<char>) -> Seq<char> {
    "Created new Pull Request #"@ + decimal(number as nat) + ": "@ + url
}

/// The command: what it is waiting for, and what it knows by then.
#[derive(Debug)]
pub enum Command {
    /// The revisions of the stack are being read.
    Reading,
    /// The user is being told that there are none.
    Leaving,
    /// The commit that the stack grows from is being looked up.
    Trunk { revisions: Vec<Revision> },
    /// The pull requests of the revisions are being fetched.
    Fetching { trunk: Oid, revisions: Vec<Revision> },
    /// The branches are being brought up to date.
    Handling { branches: Branches },
    /// A pull request is being created.
    Creating {
        revision: Revision,
        base_branch: String,
        head_branch: String,
        queue: Vec<BranchAction>,
    },
    /// The address of a new pull request is being looked up.
    Linking { revision: Revision, number: u64, queue: Vec<BranchAction> },
    /// The user is being told of a new pull request.
    Announcing { revision: Revision, number: u64, url: String, queue: Vec<BranchAction> },
    /// The message of a revision is being written back.
    Storing { revision: Revision, queue: Vec<BranchAction> },
}

/// What a [`Command`] says.
#[verifier::ext_equal]
pub enum CommandView {
    Reading,
    Leaving,
    Trunk { revisions: Seq<RevisionView> },
    Fetching { trunk: Oid, revisions: Seq<RevisionView> },
    Handling { branches: BranchesView },
    Creating {
        revision: RevisionView,
        base_branch: Seq<char>,
        head_branch: Seq<char>,
        queue: Seq<BranchActionView>,
    },
    Linking { revision: RevisionView, number: u64, queue: Seq<BranchActionView> },
    Announcing {
        revision: RevisionView,
        number: u64,
        url: Seq<char>,
        queue: Seq<BranchActionView>,
    },
    Storing { revision: RevisionView, queue: Seq<BranchActionView> },
}

impl View for Command {
    type V = CommandView;

    open spec fn view(&self) -> CommandView {
        match *self {
            Command::Reading => CommandView::Reading,
            Command::Leaving => CommandView::Leaving,
            Command::Trunk { revisions } => CommandView::Trunk { revisions: views(revisions@) },
            Command::Fetching { trunk, revisions } => CommandView::Fetching {
                trunk,
                revisions: views(revisions@),
            },
            Command::Handling { branches } => CommandView::Handling { branches: branches@ },
            Command::Creating { revision, base_branch, head_branch, queue } =>
            CommandView::Creating {
                revision: revision@,
                base_branch: base_branch@,
                head_branch: head_branch@,
                queue: views(queue@),
            },
            Command::Linking { revision, number, queue } => CommandView::Linking {
                revision: revision@,
                number,
                queue: views(queue@),
            },
            Command::Announcing { revision, number, url, queue } => CommandView::Announcing {
                revision: revision@,
                number,
                url: url@,
                queue: views(queue@),
            },
            Command::Storing { revision, queue } => CommandView::Storing {
                revision: revision@,
                queue: views(queue@),
            },
        }
    }
}

impl CommandView {
    /// Turns to the next branch that is up to date. A revision that has no pull
    /// request gets one.
    pub open spec fn publish(queue: Seq<BranchActionView>) -> Step<CommandView, (), Trail> {
        if queue.len() == 0 {
            Step::Finished(Ok(()))
        } else {
            Step::Waiting(
                match queue[0].existing_nr {
                    Some(_) => CommandView::Storing {
                        revision: queue[0].revision,
                        queue: queue.skip(1),
                    },
                    None => CommandView::Creating {
                        revision: queue[0].revision,
                        base_branch: queue[0].base_branch,
                        head_branch: queue[0].head_branch,
                        queue: queue.skip(1),
                    },
                },
            )
        }
    }

    /// Where the command stands after a step of its branches.
    pub open spec fn after(step: Step<BranchesView, Seq<BranchActionView>, Trail>) -> Step<
        CommandView,
        (),
        Trail,
    > {
        match step {
            Step::Waiting(branches) => Step::Waiting(CommandView::Handling { branches }),
            Step::Finished(Ok(actions)) => Self::publish(actions),
            Step::Finished(Err(trail)) => Step::Finished(Err(trail)),
        }
    }

    /// What the command asks for.
    pub open spec fn request(self, config: ConfigView) -> ActionView {
        match self {
            CommandView::Reading => ActionView::ReadRevisions {
                revset: "::@ ~ (immutable() | description(exact:\"\"))"@,
            },
            CommandView::Leaving => ActionView::Output {
                icon: "👋"@,
                text: "No commits found - nothing to do. Good bye!"@,
            },
            CommandView::Trunk { revisions } => ActionView::ResolveRevision {
                id: revisions[0].parent_ids[0],
            },
            CommandView::Fetching { revisions, .. } => ActionView::FetchPullRequests {
                numbers: numbers(revisions),
            },
            CommandView::Handling { branches } => branches.request(config),
            CommandView::Creating { revision, base_branch, head_branch, .. } =>
            ActionView::CreatePullRequest {
                message: revision.message,
                base_branch,
                head_branch,
                draft: false,
            },
            CommandView::Linking { number, .. } => ActionView::PullRequestUrl { number },
            CommandView::Announcing { number, url, .. } => ActionView::Output {
                icon: "✨"@,
                text: created_text(number, url),
            },
            CommandView::Storing { revision, .. } => ActionView::UpdateMessage { revision },
        }
    }

    /// Where the command stands after a reply.
    pub open spec fn next(
        self,
        config: ConfigView,
        opts: StackedOptionsView,
        reply: ReplyView,
    ) -> Step<CommandView, (), Trail> {
        match (self, reply) {
            (CommandView::Handling { branches }, _) => Self::after(
                branches.next(config, opts, reply),
            ),
            (_, ReplyView::Failed(trail)) => Step::Finished(Err(trail)),
            (CommandView::Reading, ReplyView::Revisions(revisions)) => match first_odd(revisions) {
                Some(revision) => Step::Finished(Err(seq![odd_text(quoted(revision.id))])),
                None => Step::Waiting(
                    if revisions.len() == 0 {
                        CommandView::Leaving
                    } else {
                        CommandView::Trunk { revisions }
                    },
                ),
            },
            (CommandView::Trunk { revisions }, ReplyView::Id(trunk)) => Step::Waiting(
                CommandView::Fetching { trunk, revisions },
            ),
            (
                CommandView::Fetching { trunk, revisions },
                ReplyView::PullRequests(fetched),
            ) => match first_failure(fetched) {
                Some(trail) => Step::Finished(Err(trail)),
                None => Self::after(
                    BranchesView::turn(
                        config,
                        trunk,
                        Seq::empty(),
                        paired(revisions, outcome_values(fetched)),
                    ),
                ),
            },
            (CommandView::Creating { revision, queue, .. }, ReplyView::Number(number)) =>
            Step::Waiting(CommandView::Linking { revision, number, queue }),
            (CommandView::Linking { revision, number, queue }, ReplyView::Text(url)) =>
            Step::Waiting(CommandView::Announcing { revision, number, url, queue }),
            (CommandView::Announcing { revision, url, queue, .. }, _) => Step::Waiting(
                CommandView::Storing { revision: revision.with_pull_request(url), queue },
            ),
            (CommandView::Storing { queue, .. }, _) => Self::publish(queue),
            _ => Step::Finished(Ok(())),
        }
    }

    /// Whether the revisions of the stack have one parent each, as far as they are
    /// still to be looked at.
    pub open spec fn wf(self) -> bool {
        match self {
            CommandView::Trunk { revisions } => revisions.len() > 0 && single_parents(revisions),
            CommandView::Fetching { revisions, .. } => single_parents(revisions),
            CommandView::Handling { branches } => branches.wf(),
            _ => true,
        }
    }
}

/// Whether every revision has exactly one parent.
pub open spec fn single_parents(revisions: Seq<RevisionView>) -> bool {
    forall|i: int| 0 <= i < revisions.len() ==> (#[trigger] revisions[i]).parent_ids.len() == 1
}


/// The command leaves its branches well-formed.
pub open spec fn command_step_wf(step: Step<CommandView, (), Trail>) -> bool {
    match step {
        Step::Waiting(command) => command.wf(),
        _ => true,
    }
}

/// No revision is odd exactly where all of them have one parent.
proof fn lemma_none_odd(revisions: Seq<RevisionView>)
    ensures
        first_odd(revisions) is None <==> single_parents(revisions),
    decreases revisions.len(),
{
    if revisions.len() > 0 {
        let earlier = revisions.drop_last();
        lemma_none_odd(earlier);
        if single_parents(revisions) {
            assert forall|i: int| 0 <= i < earlier.len() implies (
            #[trigger] earlier[i]).parent_ids.len() == 1 by {
                assert(revisions[i].parent_ids.len() == 1);
            }
            assert(revisions[revisions.len() - 1].parent_ids.len() == 1);
        }
        if first_odd(revisions) is None {
            assert forall|i: int| 0 <= i < revisions.len() implies (
            #[trigger] revisions[i]).parent_ids.len() == 1 by {
                if i < earlier.len() {
                    assert(earlier[i].parent_ids.len() == 1);
                }
            }
        }
    }
}

/// An odd one among the first revisions is the first odd one of all.
proof fn lemma_first_odd_stays(revisions: Seq<RevisionView>, count: int)
    requires
        0 <= count <= revisions.len(),
        first_odd(revisions.take(count)) is Some,
    ensures
        first_odd(revisions) == first_odd(revisions.take(count)),
    decreases revisions.len(),
{
    if count == revisions.len() {
        assert(revisions.take(count) =~= revisions);
    } else {
        assert(revisions.drop_last().take(count) =~= revisions.take(count));
        lemma_first_odd_stays(revisions.drop_last(), count);
    }
}

/// The error for a revision that does not have exactly one parent, whose name in
/// quotes this is.
pub fn odd_error(quoted_id: &str) -> (r: Error)
    ensures
        r@ == seq![odd_text(quoted_id@)],
{
    Error::new(join3("Found commit with more than one parent ChangeId(", quoted_id, ")"))
}

/// Finds the first revision that does not have exactly one parent.
fn find_odd(revisions: &Vec<Revision>) -> (r: Option<usize>)
    ensures
        match first_odd(views(revisions@)) {
            Some(revision) => r is Some && r->0 < revisions@.len() && revisions@[r->0 as int]@
                == revision,
            None => r is None,
        },
{
    let ghost all = views(revisions@);
    let count: usize = revisions.len();
    let mut i: usize = 0;
    assert(all.take(0) =~= Seq::<RevisionView>::empty());
    while i < count
        invariant
            count == revisions@.len(),
            all == views(revisions@),
            i <= count,
            first_odd(all.take(i as int)) is None,
        decreases count - i,
    {
        assert(all.take(i + 1).drop_last() =~= all.take(i as int));
        if revisions[i].parent_ids.len() != 1 {
            proof {
                lemma_first_odd_stays(all, i + 1);
            }
            return Some(i);
        }
        i = i + 1;
    }
    assert(all.take(count as int) =~= all);
    None
}

/// The numbers of the pull requests that revisions have.
fn find_numbers(revisions: &Vec<Revision>) -> (r: Vec<u64>)
    ensures
        r@ == numbers(views(revisions@)),
{
    let ghost all = views(revisions@);
    let count: usize = revisions.len();
    let mut r: Vec<u64> = Vec::new();
    let mut i: usize = 0;
    assert(all.take(0) =~= Seq::<RevisionView>::empty());
    while i < count
        invariant
            count == revisions@.len(),
            all == views(revisions@),
            i <= count,
            r@ == numbers(all.take(i as int)),
        decreases count - i,
    {
        assert(all.take(i + 1).drop_last() =~= all.take(i as int));
        if let Some(number) = revisions[i].pull_request_number {
            r.push(number);
        }
        i = i + 1;
    }
    assert(all.take(count as int) =~= all);
    r
}

/// Fewer revisions have no more numbers.
proof fn lemma_numbers_grow(revisions: Seq<RevisionView>, count: int)
    requires
        0 <= count <= revisions.len(),
    ensures
        numbers(revisions.take(count)).len() <= numbers(revisions).len(),
    decreases revisions.len(),
{
    if count == revisions.len() {
        assert(revisions.take(count) =~= revisions);
    } else {
        assert(revisions.drop_last().take(count) =~= revisions.take(count));
        lemma_numbers_grow(revisions.drop_last(), count);
    }
}

/// Gives each revision that has a pull request the one that was fetched for it.
fn pair_up(revisions: Vec<Revision>, pull_requests: Vec<PullRequest>) -> (r: Vec<Entry>)
    requires
        pull_requests@.len() == numbers(views(revisions@)).len(),
    ensures
        views(r@) == paired(views(revisions@), views(pull_requests@)),
{
    let ghost all = views(revisions@);
    let ghost given = views(pull_requests@);
    let mut rest: Vec<Revision> = revisions;
    let mut left: Vec<PullRequest> = pull_requests;
    let mut r: Vec<Entry> = Vec::new();
    assert(all.take(0) =~= Seq::<RevisionView>::empty());
    assert(views(rest@) =~= all.skip(0));
    assert(views(left@) =~= given.skip(0));
    assert(views(r@) =~= Seq::<EntryView>::empty());
    while rest.len() > 0
        invariant
            rest@.len() <= all.len(),
            given.len() == numbers(all).len(),
            views(rest@) == all.skip(all.len() - rest@.len()),
            views(r@) == paired(all.take(all.len() - rest@.len()), given),
            numbers(all.take(all.len() - rest@.len())).len() <= given.len(),
            views(left@) == given.skip(
                numbers(all.take(all.len() - rest@.len())).len() as int,
            ),
        decreases rest.len(),
    {
        let ghost done = all.len() - rest@.len();
        let ghost used = numbers(all.take(done)).len() as int;
        let ghost rest_before = views(rest@);
        let ghost left_before = views(left@);
        let revision = rest.remove(0);
        assert(views(rest@) =~= rest_before.skip(1));
        assert(views(rest@) =~= all.skip(done + 1));
        assert(revision@ == rest_before[0]);
        assert(revision@ == all[done]);
        assert(all.take(done + 1).drop_last() =~= all.take(done));
        proof {
            lemma_numbers_grow(all, done + 1);
        }
        let pull_request = if revision.pull_request_number.is_some() {
            assert(left_before.len() > 0);
            let pull_request = left.remove(0);
            assert(views(left@) =~= left_before.skip(1));
            assert(views(left@) =~= given.skip(used + 1));
            assert(pull_request@ == left_before[0]);
            assert(pull_request@ == given[used]);
            Some(pull_request)
        } else {
            None
        };
        let entry = Entry { revision, pull_request };
        proof {
            lemma_views_push(r@, entry);
        }
        r.push(entry);
    }
    assert(all.take(all.len() as int) =~= all);
    r
}

/// Every revision with one parent can be put on top of it.
proof fn lemma_paired_have_place(
    revisions: Seq<RevisionView>,
    pull_requests: Seq<PullRequestView>,
)
    requires
        single_parents(revisions),
    ensures
        paired(revisions, pull_requests).len() == revisions.len(),
        forall|i: int|
            0 <= i < revisions.len() ==> has_place(#[trigger] paired(revisions, pull_requests)[i]),
    decreases revisions.len(),
{
    if revisions.len() > 0 {
        let earlier = revisions.drop_last();
        assert forall|i: int| 0 <= i < earlier.len() implies (
        #[trigger] earlier[i]).parent_ids.len() == 1 by {
            assert(revisions[i].parent_ids.len() == 1);
        }
        lemma_paired_have_place(earlier, pull_requests);
        assert(revisions[revisions.len() - 1].parent_ids.len() == 1);
        assert forall|i: int| 0 <= i < revisions.len() implies has_place(
            #[trigger] paired(revisions, pull_requests)[i],
        ) by {
            if i < earlier.len() {
                assert(has_place(paired(earlier, pull_requests)[i]));
            }
        }
    }
}

/// What fails first is the same seen from outside.
proof fn lemma_first_failure_view(fetched: Seq<Result<PullRequest>>)
    ensures
        first_failure(fetched.map_values(|one: Result<PullRequest>| fetched_view(one))) == (
        match first_failure(fetched) {
            Some(error) => Some(error@),
            None => None,
        }),
    decreases fetched.len(),
{
    let seen = fetched.map_values(|one: Result<PullRequest>| fetched_view(one));
    if fetched.len() > 0 {
        lemma_first_failure_view(fetched.drop_last());
        assert(seen.drop_last() =~= fetched.drop_last().map_values(
            |one: Result<PullRequest>| fetched_view(one),
        ));
    }
}

/// Without a failure every outcome is a value.
proof fn lemma_all_values<Value, Failure>(outcomes: Seq<std::result::Result<Value, Failure>>)
    requires
        first_failure(outcomes) is None,
    ensures
        forall|i: int| 0 <= i < outcomes.len() ==> (#[trigger] outcomes[i]) is Ok,
    decreases outcomes.len(),
{
    if outcomes.len() > 0 {
        lemma_all_values(outcomes.drop_last());
        assert forall|i: int| 0 <= i < outcomes.len() implies (#[trigger] outcomes[i]) is Ok by {
            if i < outcomes.len() - 1 {
                assert(outcomes.drop_last()[i] is Ok);
            }
        }
    }
}

/// Turns to the next branch that is up to date.
fn publish(queue: Vec<BranchAction>) -> (r: Step<Command, (), Error>)
    ensures
        step_view(r) == CommandView::publish(views(queue@)),
        command_step_wf(step_view(r)),
{
    let ghost before = views(queue@);
    let mut queue = queue;
    if queue.len() == 0 {
        return Step::Finished(Ok(()));
    }
    let BranchAction { revision, head_branch, base_branch, existing_nr } = queue.remove(0);
    assert(views(queue@) =~= before.skip(1));
    assert(revision@ == before[0].revision);
    match existing_nr {
        Some(_) => Step::Waiting(Command::Storing { revision, queue }),
        None => Step::Waiting(Command::Creating { revision, base_branch, head_branch, queue }),
    }
}

/// Where the command stands after a step of its branches.
fn after(step: Step<Branches, Vec<BranchAction>, Error>) -> (r: Step<Command, (), Error>)
    requires
        crate::stacked::branches::step_wf(branches_step_view(step)),
    ensures
        step_view(r) == CommandView::after(branches_step_view(step)),
        command_step_wf(step_view(r)),
{
    match step {
        Step::Waiting(branches) => Step::Waiting(Command::Handling { branches }),
        Step::Finished(Ok(actions)) => publish(actions),
        Step::Finished(Err(error)) => Step::Finished(Err(error)),
    }
}

impl Command {
    /// The command before it has asked for anything.
    pub fn start() -> (r: Self)
        ensures
            r@ == CommandView::Reading,
            r@.wf(),
    {
        Command::Reading
    }

    /// What the command asks for.
    pub fn request(&self, config: &Config) -> (r: Action)
        requires
            self@.wf(),
        ensures
            r@ == self@.request(config@),
    {
        match self {
            Command::Reading => Action::ReadRevisions {
                revset: "::@ ~ (immutable() | description(exact:\"\"))".into(),
            },
            Command::Leaving => Action::Output {
                icon: "👋".into(),
                text: "No commits found - nothing to do. Good bye!".into(),
            },
            Command::Trunk { revisions } => {
                assert(views(revisions@)[0].parent_ids.len() == 1);
                let id = revisions[0].parent_ids[0].clone();
                assert(id@ == views(revisions@)[0].parent_ids[0]);
                Action::ResolveRevision { id }
            },
            Command::Fetching { revisions, .. } => Action::FetchPullRequests {
                numbers: find_numbers(revisions),
            },
            Command::Handling { branches } => branches.request(config),
            Command::Creating { revision, base_branch, head_branch, .. } =>
            Action::CreatePullRequest {
                message: revision.message.clone(),
                base_branch: base_branch.clone(),
                head_branch: head_branch.clone(),
                draft: false,
            },
            Command::Linking { number, .. } => Action::PullRequestUrl { number: *number },
            Command::Announcing { number, url, .. } => {
                let mut text = join2(
                    "Created new Pull Request #",
                    decimal_text(*number).as_str(),
                );
                text.append(": ");
                text.append(url.as_str());
                Action::Output { icon: "✨".into(), text }
            },
            Command::Storing { revision, .. } => Action::UpdateMessage {
                revision: revision.clone(),
            },
        }
    }
}

/// Takes the command one reply further.
///
/// The command reads the stack and the pull requests of its revisions, brings the
/// branches up to date, and only then creates the pull requests that are missing.
pub fn stacked(config: &Config, opts: &StackedOptions, command: Command, reply: Reply) -> (r: Step<
    Command,
    (),
    Error,
>)
    requires
        command@.wf(),
        command@.request(config@).admits(reply@),
    ensures
        step_view(r) == command@.next(config@, opts@, reply@),
        command_step_wf(step_view(r)),
{
    match (command, reply) {
        (Command::Handling { branches }, reply) => after(
            handle_revs(config, opts, branches, reply),
        ),
        (_, Reply::Failed(error)) => Step::Finished(Err(error)),
        (Command::Reading, Reply::Revisions(revisions)) => {
            proof {
                lemma_none_odd(views(revisions@));
            }
            if let Some(odd) = find_odd(&revisions) {
                let quoted_id = revisions[odd].id.quoted();
                return Step::Finished(Err(odd_error(quoted_id.as_str())));
            }
            if revisions.len() == 0 {
                Step::Waiting(Command::Leaving)
            } else {
                Step::Waiting(Command::Trunk { revisions })
            }
        },
        (Command::Trunk { revisions }, Reply::Id(trunk)) => Step::Waiting(
            Command::Fetching { trunk, revisions },
        ),
        (Command::Fetching { trunk, revisions }, Reply::PullRequests(fetched)) => {
            let ghost seen = fetched@.map_values(|one: Result<PullRequest>| fetched_view(one));
            let ghost all = fetched@;
            proof {
                lemma_first_failure_view(fetched@);
            }
            match collect_futures(fetched) {
                Err(error) => Step::Finished(Err(error)),
                Ok(pull_requests) => {
                    proof {
                        lemma_all_values(all);
                        assert(views(pull_requests@) =~= outcome_values(seen));
                        lemma_paired_have_place(views(revisions@), views(pull_requests@));
                    }
                    let entries = pair_up(revisions, pull_requests);
                    assert forall|i: int| 0 <= i < entries@.len() implies has_place(
                        (#[trigger] entries@[i])@,
                    ) by {
                        assert(has_place(views(entries@)[i]));
                    }
                    after(start_revs(config, entries, trunk))
                },
            }
        },
        (Command::Creating { revision, queue, .. }, Reply::Number(number)) => Step::Waiting(
            Command::Linking { revision, number, queue },
        ),
        (Command::Linking { revision, number, queue }, Reply::Text(url)) => Step::Waiting(
            Command::Announcing { revision, number, url, queue },
        ),
        (Command::Announcing { revision, url, queue, .. }, _) => {
            let mut revision = revision;
            revision.message.pull_request = Some(url);
            Step::Waiting(Command::Storing { revision, queue })
        },
        (Command::Storing { queue, .. }, _) => publish(queue),
        _ => Step::Finished(Ok(())),
    }
}

} // verus!
