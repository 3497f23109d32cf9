//! What holds of every run of the command, whatever it is told on the way.

use vstd::prelude::*;

use crate::config::{Config, ConfigView};
use crate::error::{reworded, Error};
use crate::github::PullRequestView;
use crate::jj::{quoted, RevisionView};
use crate::message::MessageView;
use crate::oid::Oid;
use crate::stacked::branches::{BranchActionView, BranchesView, EntryView, PhaseView};
use crate::stacked::branches_laws::{
    branch_fits, branches_after, branches_fit, branches_rank, branches_replies, goes_on,
    has_given_name, law_every_branch_was_updated, law_new_branch_has_given_name,
    into_branch_of, law_stack_ends, law_update_is_into_branch_of_pull_request,
    lemma_parent_is_found, lemma_same_ids, lemma_stack_fits, same_but_last_commit, updated_by,
};
use crate::stacked::command::{
    first_failure, first_odd, law_first_failure, numbers, odd_error, odd_text, outcome_values,
    paired, single_parents, stacked, Command, CommandView,
};
use crate::stacked::exchange::{Action, ActionView, Reply, ReplyView};
use crate::stacked::{step_view, StackedOptions, StackedOptionsView, Step, Trail};
use crate::text::{decimal, law_prefix_comes_off};

verus! {

/// Where the command stands after a row of replies.
pub open spec fn command_after(
    config: ConfigView,
    opts: StackedOptionsView,
    replies: Seq<ReplyView>,
) -> Step<CommandView, (), Trail>
    decreases replies.len(),
{
    if replies.len() == 0 {
        Step::Waiting(CommandView::Reading)
    } else {
        match command_after(config, opts, replies.drop_last()) {
            Step::Waiting(command) => command.next(config, opts, replies.last()),
            finished => finished,
        }
    }
}

/// Whether a row of replies is one that the command can be given: each is of the
/// kind that was asked for, and none comes after the end.
pub open spec fn command_replies(
    config: ConfigView,
    opts: StackedOptionsView,
    replies: Seq<ReplyView>,
) -> bool
    decreases replies.len(),
{
    replies.len() > 0 ==> {
        &&& command_replies(config, opts, replies.drop_last())
        &&& match command_after(config, opts, replies.drop_last()) {
            Step::Waiting(command) => command.request(config).admits(replies.last()),
            _ => false,
        }
    }
}

/// Whether the command is past its branches: it creates pull requests and writes
/// messages back.
pub open spec fn publishing(command: CommandView) -> bool {
    match command {
        CommandView::Creating { .. } => true,
        CommandView::Linking { .. } => true,
        CommandView::Announcing { .. } => true,
        CommandView::Storing { .. } => true,
        _ => false,
    }
}

/// Whether an action changes a branch.
pub open spec fn touches_branch(action: ActionView) -> bool {
    action is CreateCommit || action is Push
}

/// Whether an action changes a pull request or a revision.
pub open spec fn publishes(action: ActionView) -> bool {
    action is CreatePullRequest || action is UpdateMessage
}

/// Once the command publishes, it goes on to do so.
proof fn lemma_publishing_stays(
    config: ConfigView,
    opts: StackedOptionsView,
    replies: Seq<ReplyView>,
    count: int,
)
    requires
        0 <= count <= replies.len(),
        command_after(config, opts, replies.take(count)) matches Step::Waiting(command)
            && publishing(command),
    ensures
        command_after(config, opts, replies) matches Step::Waiting(command) ==> publishing(command),
    decreases replies.len(),
{
    if count == replies.len() {
        assert(replies.take(count) =~= replies);
    } else {
        assert(replies.drop_last().take(count) =~= replies.take(count));
        lemma_publishing_stays(config, opts, replies.drop_last(), count);
    }
}

/// All branches are up to date before anything is published: once the command has
/// asked for a pull request or for a message to be written back, it asks for no
/// commit and no push.
pub proof fn law_branches_before_pull_requests(
    config: ConfigView,
    opts: StackedOptionsView,
    replies: Seq<ReplyView>,
    count: int,
)
    requires
        0 <= count <= replies.len(),
        command_after(config, opts, replies.take(count)) matches Step::Waiting(command)
            && publishes(command.request(config)),
    ensures
        command_after(config, opts, replies) matches Step::Waiting(command) ==> !touches_branch(
            command.request(config),
        ),
{
    lemma_publishing_stays(config, opts, replies, count);
}

/// A stack in which some revision does not have exactly one parent is refused
/// before anything is done, with the first such revision named; any other stack is
/// not.
pub proof fn law_odd_stack_is_refused(
    config: ConfigView,
    opts: StackedOptionsView,
    revisions: Seq<RevisionView>,
)
    ensures
        command_after(config, opts, seq![ReplyView::Revisions(revisions)]) is Finished
            <==> !single_parents(revisions),
        (forall|i: int|
            0 <= i < revisions.len() ==> (#[trigger] revisions[i]).parent_ids.len() == 1)
            <==> command_after(config, opts, seq![ReplyView::Revisions(revisions)]) is Waiting,
        forall|i: int|
            0 <= i < revisions.len() && (#[trigger] revisions[i]).parent_ids.len() != 1 && (
            forall|j: int| 0 <= j < i ==> (#[trigger] revisions[j]).parent_ids.len() == 1)
                ==> command_after(config, opts, seq![ReplyView::Revisions(revisions)]) == Step::<
                CommandView,
                (),
                Trail,
            >::Finished(
                Err(
                    seq![
                        "Found commit with more than one parent ChangeId("@ + quoted(
                            revisions[i].id,
                        ) + ")"@,
                    ],
                ),
            ),
        !single_parents(revisions) ==> exists|i: int|
            {
                &&& 0 <= i < revisions.len()
                &&& (#[trigger] revisions[i]).parent_ids.len() != 1
                &&& single_parents(revisions.take(i))
                &&& command_after(config, opts, seq![ReplyView::Revisions(revisions)])
                    == Step::<CommandView, (), Trail>::Finished(
                    Err(seq![odd_text(quoted(revisions[i].id))]),
                )
            },
{
    let replies = seq![ReplyView::Revisions(revisions)];
    reveal_with_fuel(command_after, 2);
    assert(replies.drop_last() =~= Seq::<ReplyView>::empty());
    lemma_first_odd(revisions);
    assert forall|i: int|
        0 <= i < revisions.len() && (#[trigger] revisions[i]).parent_ids.len() != 1 && (forall|
            j: int,
        |
            0 <= j < i ==> (#[trigger] revisions[j]).parent_ids.len() == 1) implies first_odd(
        revisions,
    ) == Some(revisions[i]) by {
        let first = choose|first: int|
            {
                &&& 0 <= first < revisions.len()
                &&& #[trigger] revisions[first] == first_odd(revisions)->0
                &&& revisions[first].parent_ids.len() != 1
                &&& single_parents(revisions.take(first))
            };
        if i < first {
            assert(revisions.take(first)[i].parent_ids.len() == 1);
        }
    }
    if first_odd(revisions) is Some {
        let i = choose|i: int|
            {
                &&& 0 <= i < revisions.len()
                &&& #[trigger] revisions[i] == first_odd(revisions)->0
                &&& revisions[i].parent_ids.len() != 1
                &&& single_parents(revisions.take(i))
            };
        assert(revisions[i].parent_ids.len() != 1);
    }
}

/// The first odd revision is the one with no other before it.
proof fn lemma_first_odd(revisions: Seq<RevisionView>)
    ensures
        match first_odd(revisions) {
            Some(revision) => exists|i: int|
                {
                    &&& 0 <= i < revisions.len()
                    &&& #[trigger] revisions[i] == revision
                    &&& revisions[i].parent_ids.len() != 1
                    &&& single_parents(revisions.take(i))
                },
            None => single_parents(revisions),
        },
    decreases revisions.len(),
{
    if revisions.len() > 0 {
        let earlier = revisions.drop_last();
        lemma_first_odd(earlier);
        match first_odd(earlier) {
            Some(revision) => {
                let i = choose|i: int|
                    {
                        &&& 0 <= i < earlier.len()
                        &&& #[trigger] earlier[i] == revision
                        &&& earlier[i].parent_ids.len() != 1
                        &&& single_parents(earlier.take(i))
                    };
                assert(revisions[i] == revision);
                assert(revisions.take(i) =~= earlier.take(i));
            },
            None => {
                let i = revisions.len() - 1;
                assert(revisions.take(i) =~= earlier);
                if revisions.last().parent_ids.len() == 1 {
                    assert forall|j: int| 0 <= j < revisions.len() implies (
                    #[trigger] revisions[j]).parent_ids.len() == 1 by {
                        if j < i {
                            assert(earlier[j].parent_ids.len() == 1);
                        }
                    }
                } else {
                    assert(revisions[i] == revisions.last());
                }
            },
        }
    }
}

/// Without revisions the command says so and is done.
pub proof fn law_empty_stack_is_left(
    config: ConfigView,
    opts: StackedOptionsView,
    replies: Seq<ReplyView>,
)
    requires
        command_replies(config, opts, replies),
        replies.len() > 0,
        replies[0] == ReplyView::Revisions(Seq::empty()),
    ensures
        match command_after(config, opts, replies) {
            Step::Waiting(command) => replies.len() == 1 && command.request(config) is Output,
            Step::Finished(outcome) => replies.len() == 2 && (outcome is Ok <==> replies[1] is Done),
        },
    decreases replies.len(),
{
    let earlier = replies.drop_last();
    if replies.len() == 1 {
        assert(earlier =~= Seq::<ReplyView>::empty());
    } else {
        assert(earlier[0] == replies[0]);
        law_empty_stack_is_left(config, opts, earlier);
    }
}

/// The revisions that the command was told of.
pub open spec fn told_revisions(replies: Seq<ReplyView>) -> Seq<RevisionView> {
    replies[0]->Revisions_0
}

/// The commit that the stack grows from, as the command was told.
pub open spec fn told_trunk(replies: Seq<ReplyView>) -> Oid {
    replies[1]->Id_0
}

/// The revisions with their pull requests, as the command was told.
pub open spec fn told_entries(replies: Seq<ReplyView>) -> Seq<EntryView> {
    paired(told_revisions(replies), outcome_values(replies[2]->PullRequests_0))
}

/// How many pull requests were created.
pub open spec fn created(replies: Seq<ReplyView>) -> nat
    decreases replies.len(),
{
    if replies.len() == 0 {
        0
    } else {
        created(replies.drop_last()) + if replies.last() is Number {
            1nat
        } else {
            0nat
        }
    }
}

/// How many revisions do not have a pull request.
pub open spec fn without_pull_request(revisions: Seq<RevisionView>) -> nat
    decreases revisions.len(),
{
    if revisions.len() == 0 {
        0
    } else {
        let last = revisions.last();
        without_pull_request(revisions.drop_last()) + if last.pull_request_number is None {
            1nat
        } else {
            0nat
        }
    }
}

/// Whether the replies behind the first three are those of the stack, from its
/// start on.
pub open spec fn stack_runs(
    config: ConfigView,
    opts: StackedOptionsView,
    replies: Seq<ReplyView>,
    branches: BranchesView,
) -> bool {
    let run = replies.skip(3);
    &&& branches_replies(config, opts, told_trunk(replies), told_entries(replies), run)
    &&& branches_after(config, opts, told_trunk(replies), told_entries(replies), run) == Step::<
        BranchesView,
        Seq<BranchActionView>,
        Trail,
    >::Waiting(branches)
}

/// Whether these are the branches that the stack had come to by a reply: the
/// outcome of a run of the stack on the replies behind the first three.
pub open spec fn stack_ended(
    config: ConfigView,
    opts: StackedOptionsView,
    replies: Seq<ReplyView>,
    actions: Seq<BranchActionView>,
    end: int,
) -> bool {
    let run = replies.subrange(3, end);
    &&& 3 <= end <= replies.len()
    &&& branches_replies(config, opts, told_trunk(replies), told_entries(replies), run)
    &&& branches_after(config, opts, told_trunk(replies), told_entries(replies), run) == Step::<
        BranchesView,
        Seq<BranchActionView>,
        Trail,
    >::Finished(Ok(actions))
}

/// Whether these are the branches that the stack came to. What holds of the
/// outcome of every stack holds of them.
pub open spec fn told_branches(
    config: ConfigView,
    opts: StackedOptionsView,
    replies: Seq<ReplyView>,
    actions: Seq<BranchActionView>,
) -> bool {
    exists|end: int| #[trigger] stack_ended(config, opts, replies, actions, end)
}

/// Whether branches are those of revisions, one each and in their order.
pub open spec fn branches_match(
    revisions: Seq<RevisionView>,
    actions: Seq<BranchActionView>,
) -> bool {
    &&& actions.len() == revisions.len()
    &&& forall|k: int|
        0 <= k < actions.len() ==> {
            &&& same_but_last_commit((#[trigger] actions[k]).revision, revisions[k])
            &&& actions[k].existing_nr is Some <==> revisions[k].pull_request_number is Some
        }
}

/// The revisions whose messages the command asked to have written back, as far as
/// it was answered, in the order in which it asked.
pub open spec fn written_back(
    config: ConfigView,
    opts: StackedOptionsView,
    replies: Seq<ReplyView>,
) -> Seq<RevisionView>
    decreases replies.len(),
{
    if replies.len() == 0 {
        Seq::empty()
    } else {
        let earlier = written_back(config, opts, replies.drop_last());
        match command_after(config, opts, replies.drop_last()) {
            Step::Waiting(command) => match command.request(config) {
                ActionView::UpdateMessage { revision } => earlier.push(revision),
                _ => earlier,
            },
            _ => earlier,
        }
    }
}

/// Whether a pull request was created in a turn: at that reply, with so many
/// messages written back, the command had asked for a pull request with a message,
/// and was told its number.
pub open spec fn created_at(
    config: ConfigView,
    opts: StackedOptionsView,
    replies: Seq<ReplyView>,
    turn: int,
    message: MessageView,
    number: u64,
    at: int,
) -> bool {
    &&& 0 <= at < replies.len()
    &&& written_back(config, opts, replies.take(at)).len() == turn
    &&& command_after(config, opts, replies.take(at)) matches Step::Waiting(asked)
    &&& asked.request(config) matches ActionView::CreatePullRequest { message: given, .. }
    &&& given == message
    &&& replies[at] == ReplyView::Number(number)
}

/// Whether an address is that of the pull request that was created in a turn: as
/// soon as the command was told its number, it asked for the address that goes with
/// the number, and was told this one.
pub open spec fn linked_at(
    config: ConfigView,
    opts: StackedOptionsView,
    replies: Seq<ReplyView>,
    turn: int,
    message: MessageView,
    url: Seq<char>,
    at: int,
) -> bool {
    &&& at + 1 < replies.len()
    &&& replies[at] matches ReplyView::Number(number)
    &&& created_at(config, opts, replies, turn, message, number, at)
    &&& command_after(config, opts, replies.take(at + 1)) matches Step::Waiting(asked)
    &&& asked.request(config) == (ActionView::PullRequestUrl { number })
    &&& replies[at + 1] == ReplyView::Text(url)
}

/// A revision that names an address for its pull request, and is otherwise as it
/// was: its id, its parents and its number, and the title, the last commit and the
/// other sections of its message.
pub open spec fn with_address(revision: RevisionView, url: Seq<char>) -> RevisionView {
    RevisionView {
        id: revision.id,
        parent_ids: revision.parent_ids,
        pull_request_number: revision.pull_request_number,
        message: MessageView {
            title: revision.message.title,
            last_commit: revision.message.last_commit,
            pull_request: Some(url),
            others: revision.message.others,
        },
    }
}

/// Whether a revision is what is written back for a branch in its turn: as its
/// update left it, with the address of its pull request where that is new.
pub open spec fn written_fits(
    config: ConfigView,
    opts: StackedOptionsView,
    replies: Seq<ReplyView>,
    turn: int,
    revision: RevisionView,
    action: BranchActionView,
) -> bool {
    if action.existing_nr is Some {
        revision == action.revision
    } else {
        &&& revision.message.pull_request matches Some(url)
        &&& revision == with_address(action.revision, url)
        &&& exists|at: int| #[trigger]
            linked_at(config, opts, replies, turn, action.revision.message, url, at)
    }
}

/// Whether exactly the first branches were written back, in their order.
pub open spec fn written_up_to(
    config: ConfigView,
    opts: StackedOptionsView,
    replies: Seq<ReplyView>,
    actions: Seq<BranchActionView>,
    turn: int,
) -> bool {
    &&& written_back(config, opts, replies).len() == turn
    &&& forall|k: int|
        0 <= k < turn ==> written_fits(
            config,
            opts,
            replies,
            k,
            #[trigger] written_back(config, opts, replies)[k],
            actions[k],
        )
}

/// Whether the command is at the given branch of those that the stack came to.
pub open spec fn publishing_at(
    config: ConfigView,
    opts: StackedOptionsView,
    command: CommandView,
    replies: Seq<ReplyView>,
    actions: Seq<BranchActionView>,
    turn: int,
) -> bool {
    let before = without_pull_request(told_revisions(replies).take(turn));
    &&& 0 <= turn < actions.len()
    &&& written_up_to(config, opts, replies, actions, turn)
    &&& match command {
        CommandView::Creating { revision, base_branch, head_branch, queue } => {
            &&& queue == actions.skip(turn + 1)
            &&& revision == actions[turn].revision
            &&& base_branch == actions[turn].base_branch
            &&& head_branch == actions[turn].head_branch
            &&& actions[turn].existing_nr is None
            &&& created(replies) == before
        },
        CommandView::Linking { revision, number, queue } => {
            &&& queue == actions.skip(turn + 1)
            &&& revision == actions[turn].revision
            &&& actions[turn].existing_nr is None
            &&& created(replies) == before + 1
            &&& created_at(
                config,
                opts,
                replies,
                turn,
                revision.message,
                number,
                replies.len() - 1,
            )
        },
        CommandView::Announcing { revision, number, url, queue } => {
            &&& queue == actions.skip(turn + 1)
            &&& revision == actions[turn].revision
            &&& actions[turn].existing_nr is None
            &&& created(replies) == before + 1
            &&& replies[replies.len() - 2] == ReplyView::Number(number)
            &&& linked_at(config, opts, replies, turn, revision.message, url, replies.len() - 2)
        },
        CommandView::Storing { revision, queue } => {
            &&& queue == actions.skip(turn + 1)
            &&& if actions[turn].existing_nr is Some {
                revision == actions[turn].revision
            } else {
                &&& revision.message.pull_request matches Some(url)
                &&& revision == with_address(actions[turn].revision, url)
                &&& linked_at(
                    config,
                    opts,
                    replies,
                    turn,
                    actions[turn].revision.message,
                    url,
                    replies.len() - 3,
                )
            }
            &&& created(replies) == without_pull_request(told_revisions(replies).take(turn + 1))
        },
        _ => false,
    }
}

/// Whether the command is at some branch of those that the stack came to.
spec fn publishing_somewhere(
    config: ConfigView,
    opts: StackedOptionsView,
    command: CommandView,
    replies: Seq<ReplyView>,
) -> bool {
    exists|actions: Seq<BranchActionView>, turn: int|
        told_branches(config, opts, replies, actions) && #[trigger] publishing_at(
            config,
            opts,
            command,
            replies,
            actions,
            turn,
        )
}

/// Whether every branch that the stack came to was written back.
spec fn all_written_back(
    config: ConfigView,
    opts: StackedOptionsView,
    replies: Seq<ReplyView>,
) -> bool {
    exists|actions: Seq<BranchActionView>|
        told_branches(config, opts, replies, actions) && #[trigger] written_up_to(
            config,
            opts,
            replies,
            actions,
            actions.len() as int,
        )
}

/// What the command has come to after a row of replies.
spec fn command_fits(
    config: ConfigView,
    opts: StackedOptionsView,
    replies: Seq<ReplyView>,
    step: Step<CommandView, (), Trail>,
) -> bool {
    let count = replies.len();
    let nothing_yet = created(replies) == 0 && written_back(config, opts, replies).len() == 0;
    &&& count >= 1 && !(step is Finished) ==> replies[0] is Revisions
    &&& match step {
        Step::Waiting(CommandView::Reading) => count == 0,
        Step::Waiting(CommandView::Leaving) => count == 1 && told_revisions(replies).len() == 0
            && nothing_yet,
        Step::Waiting(CommandView::Trunk { revisions }) => count == 1 && revisions
            == told_revisions(replies) && nothing_yet,
        Step::Waiting(CommandView::Fetching { trunk, revisions }) => {
            &&& count == 2
            &&& revisions == told_revisions(replies)
            &&& replies[1] == ReplyView::Id(trunk)
            &&& nothing_yet
        },
        Step::Waiting(CommandView::Handling { branches }) => {
            &&& count >= 3
            &&& replies[1] is Id
            &&& replies[2] is PullRequests
            &&& stack_runs(config, opts, replies, branches)
            &&& nothing_yet
        },
        Step::Waiting(command) => {
            &&& count >= 3
            &&& replies[1] is Id
            &&& replies[2] is PullRequests
            &&& publishing_somewhere(config, opts, command, replies)
        },
        Step::Finished(Ok(_)) => {
            &&& count >= 1
            &&& replies[0] is Revisions
            &&& created(replies) == without_pull_request(told_revisions(replies))
            &&& if told_revisions(replies).len() == 0 {
                written_back(config, opts, replies).len() == 0
            } else {
                all_written_back(config, opts, replies)
            }
        },
        Step::Finished(Err(_)) => true,
    }
}

/// Fetching gives every revision one entry, with a pull request exactly where it
/// has a number.
proof fn lemma_paired(revisions: Seq<RevisionView>, pull_requests: Seq<PullRequestView>)
    ensures
        paired(revisions, pull_requests).len() == revisions.len(),
        forall|k: int|
            0 <= k < revisions.len() ==> {
                &&& (#[trigger] paired(revisions, pull_requests)[k]).revision == revisions[k]
                &&& paired(revisions, pull_requests)[k].pull_request is Some
                    <==> revisions[k].pull_request_number is Some
            },
    decreases revisions.len(),
{
    if revisions.len() > 0 {
        lemma_paired(revisions.drop_last(), pull_requests);
    }
}

/// The branches that the stack came to are those of the revisions.
proof fn lemma_branches_match(
    config: ConfigView,
    opts: StackedOptionsView,
    replies: Seq<ReplyView>,
    actions: Seq<BranchActionView>,
)
    requires
        told_branches(config, opts, replies, actions),
    ensures
        branches_fit(config, told_trunk(replies), told_entries(replies), actions),
        branches_match(told_revisions(replies), actions),
{
    let revisions = told_revisions(replies);
    let entries = told_entries(replies);
    let end = choose|end: int| #[trigger] stack_ended(config, opts, replies, actions, end);
    lemma_stack_fits(config, opts, told_trunk(replies), entries, replies.subrange(3, end));
    lemma_paired(revisions, outcome_values(replies[2]->PullRequests_0));
    assert forall|k: int| 0 <= k < actions.len() implies {
        &&& same_but_last_commit((#[trigger] actions[k]).revision, revisions[k])
        &&& actions[k].existing_nr is Some <==> revisions[k].pull_request_number is Some
    } by {
        assert(branch_fits(
            config,
            told_trunk(replies),
            actions.take(k),
            entries[k],
            actions[k],
        ));
        assert(entries[k].revision == revisions[k]);
    }
}

/// The branches that the stack came to stay the same.
proof fn lemma_branches_stay(
    config: ConfigView,
    opts: StackedOptionsView,
    replies: Seq<ReplyView>,
    actions: Seq<BranchActionView>,
)
    requires
        replies.len() > 3,
        told_branches(config, opts, replies.drop_last(), actions),
    ensures
        told_branches(config, opts, replies, actions),
{
    let earlier = replies.drop_last();
    let end = choose|end: int| #[trigger] stack_ended(config, opts, earlier, actions, end);
    assert(replies.subrange(3, end) =~= earlier.subrange(3, end));
    assert(stack_ended(config, opts, replies, actions, end));
}

/// The branches that the command publishes, and the one whose turn it is.
proof fn lemma_publishing_turn(
    config: ConfigView,
    opts: StackedOptionsView,
    command: CommandView,
    replies: Seq<ReplyView>,
) -> (r: (Seq<BranchActionView>, int))
    requires
        publishing_somewhere(config, opts, command, replies),
    ensures
        told_branches(config, opts, replies, r.0),
        branches_match(told_revisions(replies), r.0),
        publishing_at(config, opts, command, replies, r.0, r.1),
{
    let (actions, turn) = choose|actions: Seq<BranchActionView>, turn: int|
        told_branches(config, opts, replies, actions) && #[trigger] publishing_at(
            config,
            opts,
            command,
            replies,
            actions,
            turn,
        );
    lemma_branches_match(config, opts, replies, actions);
    (actions, turn)
}

/// How the count of revisions without a pull request grows.
proof fn lemma_without_grows(revisions: Seq<RevisionView>, turn: int)
    requires
        0 <= turn < revisions.len(),
    ensures
        without_pull_request(revisions.take(turn + 1)) == without_pull_request(revisions.take(turn))
            + if revisions[turn].pull_request_number is None {
            1nat
        } else {
            0nat
        },
{
    assert(revisions.take(turn + 1).drop_last() =~= revisions.take(turn));
    assert(revisions.take(turn + 1).last() == revisions[turn]);
}

/// Turning to the next branch goes on with the branches that the stack came to.
proof fn lemma_publish(
    config: ConfigView,
    opts: StackedOptionsView,
    replies: Seq<ReplyView>,
    actions: Seq<BranchActionView>,
    turn: int,
)
    requires
        replies.len() >= 3,
        replies[0] is Revisions,
        replies[1] is Id,
        replies[2] is PullRequests,
        told_branches(config, opts, replies, actions),
        0 <= turn <= actions.len(),
        written_up_to(config, opts, replies, actions, turn),
        created(replies) == without_pull_request(told_revisions(replies).take(turn)),
    ensures
        command_fits(config, opts, replies, CommandView::publish(actions.skip(turn))),
{
    let revisions = told_revisions(replies);
    lemma_branches_match(config, opts, replies, actions);
    let queue = actions.skip(turn);
    if queue.len() == 0 {
        assert(revisions.take(turn) =~= revisions);
    } else {
        assert(queue.skip(1) =~= actions.skip(turn + 1));
        assert(queue[0] == actions[turn]);
        lemma_without_grows(revisions, turn);
        if let Step::Waiting(command) = CommandView::publish(queue) {
            assert(publishing_at(config, opts, command, replies, actions, turn));
        }
    }
}

/// What the command has come to fits what it was told.
proof fn lemma_command_fits(
    config: ConfigView,
    opts: StackedOptionsView,
    replies: Seq<ReplyView>,
)
    requires
        command_replies(config, opts, replies),
    ensures
        command_fits(config, opts, replies, command_after(config, opts, replies)),
    decreases replies.len(),
{
    if replies.len() > 0 {
        let earlier = replies.drop_last();
        lemma_command_fits(config, opts, earlier);
        assert(forall|i: int| 0 <= i < earlier.len() ==> earlier[i] == #[trigger] replies[i]);
        if let Step::Waiting(command) = command_after(config, opts, earlier) {
            match command {
                CommandView::Reading => {
                    assert(earlier =~= Seq::<ReplyView>::empty());
                    assert(created(earlier) == 0);
                    assert(written_back(config, opts, earlier).len() == 0);
                },
                CommandView::Leaving => {},
                CommandView::Trunk { .. } => {},
                CommandView::Fetching { .. } => {
                    if replies.last() is PullRequests {
                        lemma_stack_starts(config, opts, replies);
                    }
                },
                CommandView::Handling { branches } => {
                    lemma_stack_goes_on(config, opts, replies, branches);
                },
                _ => {
                    lemma_publishing_goes_on(config, opts, replies, command);
                },
            }
        }
    }
}

/// Once the pull requests are fetched, the stack starts.
proof fn lemma_stack_starts(
    config: ConfigView,
    opts: StackedOptionsView,
    replies: Seq<ReplyView>,
)
    requires
        replies.len() == 3,
        replies[0] is Revisions,
        replies[1] is Id,
        replies[2] is PullRequests,
        created(replies) == 0,
        written_back(config, opts, replies).len() == 0,
    ensures
        command_fits(
            config,
            opts,
            replies,
            CommandView::after(
                BranchesView::turn(
                    config,
                    told_trunk(replies),
                    Seq::empty(),
                    told_entries(replies),
                ),
            ),
        ),
{
    let run = replies.skip(3);
    assert(run =~= Seq::<ReplyView>::empty());
    let step = BranchesView::turn(config, told_trunk(replies), Seq::empty(), told_entries(replies));
    assert(branches_after(config, opts, told_trunk(replies), told_entries(replies), run) == step);
    if let Step::Finished(Ok(actions)) = step {
        assert(replies.subrange(3, 3) =~= run);
        assert(stack_ended(config, opts, replies, actions, 3));
        assert(told_revisions(replies).take(0) =~= Seq::<RevisionView>::empty());
        assert(actions.skip(0) =~= actions);
        lemma_publish(config, opts, replies, actions, 0);
    }
}

/// A reply takes the stack further, or ends it and starts the publishing.
proof fn lemma_stack_goes_on(
    config: ConfigView,
    opts: StackedOptionsView,
    replies: Seq<ReplyView>,
    branches: BranchesView,
)
    requires
        replies.len() > 3,
        replies[0] is Revisions,
        command_after(config, opts, replies.drop_last()) == Step::<
            CommandView,
            (),
            Trail,
        >::Waiting(CommandView::Handling { branches }),
        command_fits(
            config,
            opts,
            replies.drop_last(),
            Step::Waiting(CommandView::Handling { branches }),
        ),
        branches.request(config).admits(replies.last()),
    ensures
        command_fits(
            config,
            opts,
            replies,
            CommandView::after(branches.next(config, opts, replies.last())),
        ),
{
    let earlier = replies.drop_last();
    let run = replies.skip(3);
    assert(forall|i: int| 0 <= i < earlier.len() ==> earlier[i] == #[trigger] replies[i]);
    assert(run.drop_last() =~= earlier.skip(3));
    assert(run.last() == replies.last());
    assert(!(branches.request(config) is CreatePullRequest));
    assert(!(replies.last() is Number));
    assert(created(replies) == 0);
    assert(written_back(config, opts, replies) == written_back(config, opts, earlier));
    if let Step::Finished(Ok(actions)) = branches.next(config, opts, replies.last()) {
        assert(replies.subrange(3, replies.len() as int) =~= run);
        assert(stack_ended(config, opts, replies, actions, replies.len() as int));
        assert(actions.skip(0) =~= actions);
        assert(told_revisions(replies).take(0) =~= Seq::<RevisionView>::empty());
        lemma_publish(config, opts, replies, actions, 0);
    }
}

/// What was written back stays what fits.
proof fn lemma_written_stays(
    config: ConfigView,
    opts: StackedOptionsView,
    replies: Seq<ReplyView>,
    turn: int,
    revision: RevisionView,
    action: BranchActionView,
)
    requires
        replies.len() > 0,
        written_fits(config, opts, replies.drop_last(), turn, revision, action),
    ensures
        written_fits(config, opts, replies, turn, revision, action),
{
    if action.existing_nr is None {
        let url = revision.message.pull_request->0;
        let message = action.revision.message;
        let at = choose|at: int| #[trigger]
            linked_at(config, opts, replies.drop_last(), turn, message, url, at);
        lemma_link_stays(config, opts, replies, turn, message, url, at);
    }
}

/// The address of a pull request stays told.
proof fn lemma_link_stays(
    config: ConfigView,
    opts: StackedOptionsView,
    replies: Seq<ReplyView>,
    turn: int,
    message: MessageView,
    url: Seq<char>,
    at: int,
)
    requires
        replies.len() > 0,
        linked_at(config, opts, replies.drop_last(), turn, message, url, at),
    ensures
        linked_at(config, opts, replies, turn, message, url, at),
{
    assert(replies.take(at) =~= replies.drop_last().take(at));
    assert(replies.take(at + 1) =~= replies.drop_last().take(at + 1));
}

/// A reply takes the publishing further.
proof fn lemma_publishing_goes_on(
    config: ConfigView,
    opts: StackedOptionsView,
    replies: Seq<ReplyView>,
    command: CommandView,
)
    requires
        replies.len() > 3,
        replies[0] is Revisions,
        publishing(command),
        command_after(config, opts, replies.drop_last()) == Step::<
            CommandView,
            (),
            Trail,
        >::Waiting(command),
        command_fits(config, opts, replies.drop_last(), Step::Waiting(command)),
        command.request(config).admits(replies.last()),
    ensures
        command_fits(config, opts, replies, command.next(config, opts, replies.last())),
{
    let earlier = replies.drop_last();
    let reply = replies.last();
    assert(forall|i: int| 0 <= i < earlier.len() ==> earlier[i] == #[trigger] replies[i]);
    let (actions, turn) = lemma_publishing_turn(config, opts, command, earlier);
    lemma_branches_stay(config, opts, replies, actions);
    lemma_without_grows(told_revisions(replies), turn);
    let written = written_back(config, opts, replies);
    assert forall|k: int| 0 <= k < turn implies written_fits(
        config,
        opts,
        replies,
        k,
        #[trigger] written[k],
        actions[k],
    ) by {
        assert(written[k] == written_back(config, opts, earlier)[k]);
        lemma_written_stays(config, opts, replies, k, written[k], actions[k]);
    }
    let last = earlier.len() as int;
    assert(replies.take(last) =~= earlier);
    if let CommandView::Storing { revision, .. } = command {
        assert(written == written_back(config, opts, earlier).push(revision));
        lemma_written_stays(config, opts, replies, turn, revision, actions[turn]);
        if reply is Done {
            lemma_publish(config, opts, replies, actions, turn + 1);
        }
    } else {
        assert(replies.take(last - 1) =~= earlier.take(last - 1));
        if let CommandView::Announcing { revision, url, .. } = command {
            lemma_link_stays(config, opts, replies, turn, revision.message, url, last - 2);
        }
        if let Step::Waiting(later) = command.next(config, opts, reply) {
            assert(publishing_at(config, opts, later, replies, actions, turn));
        }
    }
}

/// A pull request is asked for only for a revision of the stack that has none, in
/// its turn: behind those whose messages were written back. It is no draft, and it
/// goes from the branch of the revision to the branch that the revision was put on
/// top of.
pub proof fn law_pull_request_only_where_none_is(
    config: ConfigView,
    opts: StackedOptionsView,
    replies: Seq<ReplyView>,
)
    requires
        command_replies(config, opts, replies),
    ensures
        command_after(config, opts, replies) matches Step::Waiting(command) ==> (command.request(
            config,
        ) matches ActionView::CreatePullRequest { message, base_branch, head_branch, draft } ==> {
            let turn = written_back(config, opts, replies).len() as int;
            &&& !draft
            &&& turn < told_revisions(replies).len()
            &&& told_revisions(replies)[turn].pull_request_number is None
            &&& exists|actions: Seq<BranchActionView>|
                {
                    &&& #[trigger] told_branches(config, opts, replies, actions)
                    &&& message == actions[turn].revision.message
                    &&& base_branch == actions[turn].base_branch
                    &&& head_branch == actions[turn].head_branch
                }
        }),
{
    lemma_command_fits(config, opts, replies);
    if let Step::Waiting(command) = command_after(config, opts, replies) {
        if command is Creating {
            let (actions, turn) = lemma_publishing_turn(config, opts, command, replies);
            assert(told_branches(config, opts, replies, actions));
        }
    }
}

/// The user is told of every new pull request by its number and its address.
pub proof fn law_new_pull_request_is_announced(
    config: ConfigView,
    opts: StackedOptionsView,
    replies: Seq<ReplyView>,
)
    requires
        command_replies(config, opts, replies),
    ensures
        command_after(config, opts, replies) matches Step::Waiting(command) ==> (command
            is Announcing ==> {
            let turn = written_back(config, opts, replies).len() as int;
            &&& replies[replies.len() - 2] matches ReplyView::Number(number)
            &&& replies.last() matches ReplyView::Text(url)
            &&& command.request(config) == (ActionView::Output {
                icon: "✨"@,
                text: "Created new Pull Request #"@ + decimal(number as nat) + ": "@ + url,
            })
            &&& exists|message: MessageView| #[trigger]
                linked_at(config, opts, replies, turn, message, url, replies.len() - 2)
        }),
{
    lemma_command_fits(config, opts, replies);
    if let Step::Waiting(command) = command_after(config, opts, replies) {
        if command is Announcing {
            let (_, turn) = lemma_publishing_turn(config, opts, command, replies);
        }
    }
}

/// The message that is written back is that of the revision whose turn it is. A
/// revision that had a pull request comes as its update left it; any other has the
/// address of its new pull request written into it. That pull request was created
/// just before, with the message as it was then, and the address was asked for by
/// its number.
pub proof fn law_message_written_back(
    config: ConfigView,
    opts: StackedOptionsView,
    replies: Seq<ReplyView>,
)
    requires
        command_replies(config, opts, replies),
    ensures
        command_after(config, opts, replies) matches Step::Waiting(command) ==> (command.request(
            config,
        ) matches ActionView::UpdateMessage { revision } ==> {
            let turn = written_back(config, opts, replies).len() as int;
            &&& turn < told_revisions(replies).len()
            &&& exists|actions: Seq<BranchActionView>|
                {
                    &&& #[trigger] told_branches(config, opts, replies, actions)
                    &&& same_but_last_commit(
                        actions[turn].revision,
                        told_revisions(replies)[turn],
                    )
                    &&& if told_revisions(replies)[turn].pull_request_number is Some {
                        revision == actions[turn].revision
                    } else {
                        &&& replies[replies.len() - 2] matches ReplyView::Text(url)
                        &&& revision.id == actions[turn].revision.id
                        &&& revision.parent_ids == actions[turn].revision.parent_ids
                        &&& revision.pull_request_number
                            == actions[turn].revision.pull_request_number
                        &&& revision.message.title == actions[turn].revision.message.title
                        &&& revision.message.last_commit
                            == actions[turn].revision.message.last_commit
                        &&& revision.message.pull_request == Some(url)
                        &&& revision.message.others == actions[turn].revision.message.others
                        &&& linked_at(
                            config,
                            opts,
                            replies,
                            turn,
                            actions[turn].revision.message,
                            url,
                            replies.len() - 3,
                        )
                    }
                }
        }),
{
    lemma_command_fits(config, opts, replies);
    if let Step::Waiting(command) = command_after(config, opts, replies) {
        if command is Storing {
            let (actions, turn) = lemma_publishing_turn(config, opts, command, replies);
            assert(told_branches(config, opts, replies, actions));
            assert(same_but_last_commit(actions[turn].revision, told_revisions(replies)[turn]));
        }
    }
}

/// Whether a revision is what is written back in a turn for one that was read, but
/// for the last commit: the same where that had a pull request, and otherwise with
/// the address of the pull request that was created for it in that turn, from the
/// message as it was before.
pub open spec fn written_for(
    config: ConfigView,
    opts: StackedOptionsView,
    replies: Seq<ReplyView>,
    turn: int,
    written: RevisionView,
    read: RevisionView,
) -> bool {
    &&& written.id == read.id
    &&& written.parent_ids == read.parent_ids
    &&& written.pull_request_number == read.pull_request_number
    &&& written.message.title == read.message.title
    &&& written.message.others == read.message.others
    &&& if read.pull_request_number is Some {
        written.message.pull_request == read.message.pull_request
    } else {
        &&& written.message.pull_request matches Some(url)
        &&& exists|message: MessageView, at: int|
            {
                &&& message.title == read.message.title
                &&& message.last_commit == written.message.last_commit
                &&& message.pull_request == read.message.pull_request
                &&& message.others == read.message.others
                &&& #[trigger] linked_at(config, opts, replies, turn, message, url, at)
            }
    }
}

/// When the command ends well, the message of every revision was written back
/// exactly once, in the order of the stack. But for the last commit, a revision
/// that had a pull request comes as it was read; any other has the address of its
/// new pull request written into it besides. The last commit is the one that the
/// branch of the revision came to.
pub proof fn law_every_message_is_written_back(
    config: ConfigView,
    opts: StackedOptionsView,
    replies: Seq<ReplyView>,
)
    requires
        command_replies(config, opts, replies),
        command_after(config, opts, replies) matches Step::Finished(Ok(_)),
    ensures
        written_back(config, opts, replies).len() == told_revisions(replies).len(),
        forall|k: int|
            0 <= k < told_revisions(replies).len() ==> {
                let written = #[trigger] written_back(config, opts, replies)[k];
                let read = replies[0]->Revisions_0[k];
                &&& written.id == read.id
                &&& written.parent_ids == read.parent_ids
                &&& written.pull_request_number == read.pull_request_number
                &&& written.message.title == read.message.title
                &&& written.message.others == read.message.others
                &&& read.pull_request_number is Some ==> written.message.pull_request
                    == read.message.pull_request
                &&& written_for(config, opts, replies, k, written, read)
            },
        told_revisions(replies).len() > 0 ==> exists|actions: Seq<BranchActionView>|
            #[trigger] told_branches(config, opts, replies, actions) && forall|k: int|
                0 <= k < told_revisions(replies).len() ==> (#[trigger] written_back(
                    config,
                    opts,
                    replies,
                )[k]).message.last_commit == actions[k].revision.message.last_commit,
{
    lemma_command_fits(config, opts, replies);
    let all = written_back(config, opts, replies);
    let revisions = told_revisions(replies);
    if revisions.len() > 0 {
        let actions = choose|actions: Seq<BranchActionView>|
            told_branches(config, opts, replies, actions) && #[trigger] written_up_to(
                config,
                opts,
                replies,
                actions,
                actions.len() as int,
            );
        lemma_branches_match(config, opts, replies, actions);
        assert forall|k: int| 0 <= k < revisions.len() implies written_for(
            config,
            opts,
            replies,
            k,
            #[trigger] all[k],
            revisions[k],
        ) by {
            assert(written_fits(config, opts, replies, k, all[k], actions[k]));
            assert(same_but_last_commit(actions[k].revision, revisions[k]));
        }
        assert(told_branches(config, opts, replies, actions));
    }
}

/// The pull request of a revision is made against the branch of its parent, where
/// the parent is in the stack and the revision had no pull request before.
pub proof fn law_pull_requests_are_stacked(
    config: ConfigView,
    opts: StackedOptionsView,
    replies: Seq<ReplyView>,
    actions: Seq<BranchActionView>,
    parent: int,
    child: int,
)
    requires
        told_branches(config, opts, replies, actions),
        0 <= parent < child < told_revisions(replies).len(),
        told_revisions(replies)[child].pull_request_number is None,
        told_revisions(replies)[child].parent_ids == seq![told_revisions(replies)[parent].id],
        forall|i: int|
            0 <= i < parent ==> (#[trigger] told_revisions(replies)[i]).id != told_revisions(
                replies,
            )[parent].id,
    ensures
        actions[child].base_branch == actions[parent].head_branch,
{
    let revisions = told_revisions(replies);
    let entries = told_entries(replies);
    lemma_branches_match(config, opts, replies, actions);
    lemma_paired(revisions, outcome_values(replies[2]->PullRequests_0));
    assert(entries[parent].revision == revisions[parent]);
    assert(entries[child].revision == revisions[child]);
    assert forall|i: int| 0 <= i < parent implies (#[trigger] entries[i]).revision.id
        != entries[parent].revision.id by {
        assert(revisions[i].id != revisions[parent].id);
    }
    lemma_same_ids(config, told_trunk(replies), entries, actions);
    lemma_parent_is_found(entries, actions, parent, child);
    assert(branch_fits(
        config,
        told_trunk(replies),
        actions.take(child),
        entries[child],
        actions[child],
    ));
    law_prefix_comes_off(config.remote_name + "/"@, actions[parent].head_branch);
}

/// The pull request of a revision that had none comes from a branch with the name
/// that was given when the stack asked for one by the title of the revision.
pub proof fn law_pull_request_comes_from_given_branch(
    config: ConfigView,
    opts: StackedOptionsView,
    replies: Seq<ReplyView>,
    actions: Seq<BranchActionView>,
    k: int,
)
    requires
        told_branches(config, opts, replies, actions),
        0 <= k < told_revisions(replies).len(),
        told_revisions(replies)[k].pull_request_number is None,
    ensures
        exists|end: int|
            {
                &&& #[trigger] stack_ended(config, opts, replies, actions, end)
                &&& has_given_name(
                    config,
                    opts,
                    told_trunk(replies),
                    told_entries(replies),
                    replies.subrange(3, end),
                    k,
                    actions[k].head_branch,
                )
            },
{
    let end = choose|end: int| #[trigger] stack_ended(config, opts, replies, actions, end);
    lemma_branches_match(config, opts, replies, actions);
    lemma_paired(told_revisions(replies), outcome_values(replies[2]->PullRequests_0));
    assert(told_entries(replies)[k].pull_request is None);
    law_new_branch_has_given_name(
        config,
        opts,
        told_trunk(replies),
        told_entries(replies),
        replies.subrange(3, end),
    );
    assert(stack_ended(config, opts, replies, actions, end));
}

/// The command starts with the revisions between the current one and what is
/// merged, without those that have no description. Without any it says good bye.
/// Else it looks up the commit that the stack grows from, which is the parent of the
/// lowest revision, and fetches the pull requests of the revisions that have one,
/// in their order.
pub proof fn law_command_reads_and_fetches(
    config: ConfigView,
    opts: StackedOptionsView,
    replies: Seq<ReplyView>,
)
    requires
        command_replies(config, opts, replies),
        command_after(config, opts, replies) is Waiting,
    ensures
        ({
            let asked = command_after(config, opts, replies)->Waiting_0.request(config);
            let revisions = replies[0]->Revisions_0;
            &&& replies.len() == 0 ==> asked == (ActionView::ReadRevisions {
                revset: "::@ ~ (immutable() | description(exact:\"\"))"@,
            })
            &&& replies.len() == 1 ==> replies[0] is Revisions && asked == if revisions.len() == 0 {
                ActionView::Output {
                    icon: "👋"@,
                    text: "No commits found - nothing to do. Good bye!"@,
                }
            } else {
                ActionView::ResolveRevision { id: revisions[0].parent_ids[0] }
            }
            &&& replies.len() == 2 ==> replies[1] is Id && asked == (
            ActionView::FetchPullRequests {
                numbers: revisions.filter(
                    |revision: RevisionView| revision.pull_request_number is Some,
                ).map_values(|revision: RevisionView| revision.pull_request_number->0),
            })
        }),
{
    lemma_command_fits(config, opts, replies);
    if replies.len() > 0 {
        lemma_command_fits(config, opts, replies.drop_last());
    }
    lemma_numbers(told_revisions(replies));
}

/// The numbers of revisions are those of the ones that have one.
proof fn lemma_numbers(revisions: Seq<RevisionView>)
    ensures
        numbers(revisions) == revisions.filter(
            |revision: RevisionView| revision.pull_request_number is Some,
        ).map_values(|revision: RevisionView| revision.pull_request_number->0),
        numbers(revisions).len() == revisions.filter(
            |revision: RevisionView| revision.pull_request_number is Some,
        ).len(),
    decreases revisions.len(),
{
    reveal(Seq::filter);
    let has_number = |revision: RevisionView| revision.pull_request_number is Some;
    let number = |revision: RevisionView| revision.pull_request_number->0;
    if revisions.len() > 0 {
        let earlier = revisions.drop_last();
        lemma_numbers(earlier);
        if has_number(revisions.last()) {
            assert(revisions.filter(has_number) == earlier.filter(has_number).push(
                revisions.last(),
            ));
        }
        assert(numbers(revisions) =~= revisions.filter(has_number).map_values(number));
    } else {
        assert(numbers(revisions) =~= revisions.filter(has_number).map_values(number));
    }
}

/// Every revision meets its own pull request. One with a number gets what was
/// fetched for that number: where so many revisions before it have a number, that
/// number was the next one asked for, and what was fetched next is its pull
/// request. So its pull request has its number, where all have the numbers that
/// were asked for. One without a number gets none.
pub proof fn law_revision_meets_its_pull_request(replies: Seq<ReplyView>, k: int)
    requires
        0 <= k < told_revisions(replies).len(),
    ensures
        ({
            let revisions = replies[0]->Revisions_0;
            let fetched = replies[2]->PullRequests_0;
            let earlier = revisions.take(k).filter(
                |revision: RevisionView| revision.pull_request_number is Some,
            ).len() as int;
            let asked_for = revisions.filter(
                |revision: RevisionView| revision.pull_request_number is Some,
            ).map_values(|revision: RevisionView| revision.pull_request_number->0);
            &&& told_entries(replies).len() == revisions.len()
            &&& told_entries(replies)[k].revision == revisions[k]
            &&& match revisions[k].pull_request_number {
                Some(number) => {
                    &&& earlier < asked_for.len()
                    &&& asked_for[earlier] == number
                    &&& fetched.len() == asked_for.len() ==> told_entries(replies)[k].pull_request
                        == Some(fetched[earlier]->Ok_0)
                    &&& fetched.len() == asked_for.len() && (forall|j: int|
                        0 <= j < fetched.len() ==> (#[trigger] fetched[j])->Ok_0.number
                            == asked_for[j]) ==> told_entries(replies)[k].pull_request->0.number
                        == number
                },
                None => told_entries(replies)[k].pull_request is None,
            }
        }),
{
    let revisions = told_revisions(replies);
    let pull_requests = outcome_values(replies[2]->PullRequests_0);
    lemma_paired(revisions, pull_requests);
    lemma_numbers(revisions);
    lemma_numbers(revisions.take(k));
    if revisions[k].pull_request_number is Some {
        lemma_paired_at(revisions, pull_requests, k);
    }
}

/// Where the number and the pull request of a revision are found.
proof fn lemma_paired_at(
    revisions: Seq<RevisionView>,
    pull_requests: Seq<PullRequestView>,
    k: int,
)
    requires
        0 <= k < revisions.len(),
        revisions[k].pull_request_number is Some,
    ensures
        numbers(revisions.take(k)).len() < numbers(revisions).len(),
        numbers(revisions)[numbers(revisions.take(k)).len() as int]
            == revisions[k].pull_request_number->0,
        paired(revisions, pull_requests)[k].pull_request == Some(
            pull_requests[numbers(revisions.take(k)).len() as int],
        ),
    decreases revisions.len(),
{
    let earlier = revisions.drop_last();
    lemma_paired(earlier, pull_requests);
    if k == revisions.len() - 1 {
        assert(revisions.take(k) =~= earlier);
    } else {
        assert(revisions.take(k) =~= earlier.take(k));
        lemma_paired_at(earlier, pull_requests, k);
    }
}

/// A revision with a pull request is pushed to the branch of that pull request and
/// to no other. While the branches are being brought up to date, the revision whose
/// turn it is comes in the order of the stack. Where it has a number, the last
/// replies are those of an update of that very revision into the branch that was
/// fetched for its number, and what is pushed goes to that branch.
pub proof fn law_revision_goes_to_branch_of_its_pull_request(
    config: ConfigView,
    opts: StackedOptionsView,
    replies: Seq<ReplyView>,
)
    requires
        command_replies(config, opts, replies),
    ensures
        command_after(config, opts, replies) matches Step::Waiting(CommandView::Handling {
            branches,
        }) ==> {
            let revisions = replies[0]->Revisions_0;
            let turn = branches.seen.len() as int;
            let earlier = revisions.take(turn).filter(
                |revision: RevisionView| revision.pull_request_number is Some,
            ).len() as int;
            &&& turn < revisions.len()
            &&& revisions[turn].pull_request_number is Some ==> {
                &&& branches.phase matches PhaseView::Updating { update, .. }
                &&& exists|first: int| #[trigger]
                    into_branch_of(
                        config,
                        opts,
                        revisions[turn],
                        update,
                        replies[2]->PullRequests_0[earlier]->Ok_0.head.branch_name,
                        replies.skip(3),
                        first,
                    )
            }
        },
{
    lemma_command_fits(config, opts, replies);
    if let Step::Waiting(CommandView::Handling { branches }) = command_after(
        config,
        opts,
        replies,
    ) {
        let turn = branches.seen.len() as int;
        let run = replies.skip(3);
        lemma_all_fetched(config, opts, replies);
        lemma_stack_turn(config, opts, told_trunk(replies), told_entries(replies), run, branches);
        lemma_paired(told_revisions(replies), outcome_values(replies[2]->PullRequests_0));
        lemma_numbers(told_revisions(replies));
        law_revision_meets_its_pull_request(replies, turn);
        law_update_is_into_branch_of_pull_request(
            config,
            opts,
            told_trunk(replies),
            told_entries(replies),
            run,
        );
    }
}

/// The turn of a stack is one of its entries.
proof fn lemma_stack_turn(
    config: ConfigView,
    opts: StackedOptionsView,
    trunk: Oid,
    entries: Seq<EntryView>,
    run: Seq<ReplyView>,
    branches: BranchesView,
)
    requires
        branches_replies(config, opts, trunk, entries, run),
        branches_after(config, opts, trunk, entries, run) == Step::<
            BranchesView,
            Seq<BranchActionView>,
            Trail,
        >::Waiting(branches),
    ensures
        branches.seen.len() < entries.len(),
{
    lemma_stack_fits(config, opts, trunk, entries, run);
}

/// As many pull requests were fetched as there are revisions with a number.
proof fn lemma_all_fetched(
    config: ConfigView,
    opts: StackedOptionsView,
    replies: Seq<ReplyView>,
)
    requires
        command_replies(config, opts, replies),
        replies.len() >= 3,
        replies[2] is PullRequests,
    ensures
        replies[2]->PullRequests_0.len() == numbers(told_revisions(replies)).len(),
    decreases replies.len(),
{
    let earlier = replies.drop_last();
    if replies.len() == 3 {
        lemma_command_fits(config, opts, earlier);
        assert(replies[0] == earlier[0]);
    } else {
        assert(replies[0] == earlier[0] && replies[2] == earlier[2]);
        lemma_all_fetched(config, opts, earlier);
    }
}

/// Where any pull request could not be fetched, the command ends with the first
/// failure, and with nothing else; where all were, it goes on.
pub proof fn law_first_failed_fetch_is_said(
    config: ConfigView,
    opts: StackedOptionsView,
    replies: Seq<ReplyView>,
)
    requires
        command_replies(config, opts, replies),
        replies.len() == 3,
        replies[2] is PullRequests,
    ensures
        forall|i: int|
            0 <= i < replies[2]->PullRequests_0.len() && (
            #[trigger] replies[2]->PullRequests_0[i]) is Err && (forall|j: int|
                0 <= j < i ==> (#[trigger] replies[2]->PullRequests_0[j]) is Ok)
                ==> command_after(config, opts, replies) == Step::<
                CommandView,
                (),
                Trail,
            >::Finished(Err(replies[2]->PullRequests_0[i]->Err_0)),
        (forall|i: int|
            0 <= i < replies[2]->PullRequests_0.len() ==> (
            #[trigger] replies[2]->PullRequests_0[i]) is Ok) ==> command_after(
            config,
            opts,
            replies,
        ) is Waiting,
{
    let fetched = replies[2]->PullRequests_0;
    let earlier = replies.drop_last();
    lemma_command_fits(config, opts, earlier);
    law_first_failure(fetched);
    lemma_paired(told_revisions(earlier), outcome_values(fetched));
    assert(earlier[0] == replies[0]);
    assert(told_revisions(earlier).len() > 0) by {
        lemma_command_has_revisions(config, opts, earlier);
    }
}

/// Only a stack that has revisions gets as far as its pull requests.
proof fn lemma_command_has_revisions(
    config: ConfigView,
    opts: StackedOptionsView,
    replies: Seq<ReplyView>,
)
    requires
        command_replies(config, opts, replies),
        replies.len() == 2,
        command_after(config, opts, replies) is Waiting,
    ensures
        told_revisions(replies).len() > 0,
{
    let earlier = replies.drop_last();
    lemma_command_fits(config, opts, replies);
    lemma_command_fits(config, opts, earlier);
    assert(earlier.drop_last() =~= Seq::<ReplyView>::empty());
    assert(earlier[0] == replies[0]);
}

/// What each revision's branch came to, in a command that has its branches up to
/// date: it is what came of an update of that revision, as it was read, into that
/// branch, on top of what it belongs on top of.
#[verifier::spinoff_prover]
pub proof fn law_command_updates_every_revision(
    config: ConfigView,
    opts: StackedOptionsView,
    replies: Seq<ReplyView>,
    actions: Seq<BranchActionView>,
    k: int,
)
    requires
        told_branches(config, opts, replies, actions),
        0 <= k < told_revisions(replies).len(),
    ensures
        exists|base_ref: Seq<char>, first: int, last: int|
            {
                &&& 3 <= first <= last <= replies.len()
                &&& goes_on(
                    config,
                    told_trunk(replies),
                    told_entries(replies),
                    actions,
                    k,
                    base_ref,
                )
                &&& #[trigger] updated_by(
                    config,
                    opts,
                    told_revisions(replies)[k],
                    base_ref,
                    actions[k],
                    replies.subrange(first, last),
                )
            },
{
    let end = choose|end: int| #[trigger] stack_ended(config, opts, replies, actions, end);
    let run = replies.subrange(3, end);
    let trunk = told_trunk(replies);
    let entries = told_entries(replies);
    lemma_paired(told_revisions(replies), outcome_values(replies[2]->PullRequests_0));
    assert(entries[k].revision == told_revisions(replies)[k]);
    law_every_branch_was_updated(config, opts, trunk, entries, run, k);
    let (base_ref, first, last) = choose|base_ref: Seq<char>, first: int, last: int|
        {
            &&& 0 <= first <= last <= run.len()
            &&& goes_on(config, trunk, entries, actions, k, base_ref)
            &&& #[trigger] updated_by(
                config,
                opts,
                entries[k].revision,
                base_ref,
                actions[k],
                run.subrange(first, last),
            )
        };
    lemma_part_of_run(replies, end, first, last);
    assert(updated_by(
        config,
        opts,
        told_revisions(replies)[k],
        base_ref,
        actions[k],
        replies.subrange(first + 3, last + 3),
    ));
}

/// Replies of a part of the stack are replies of the command.
proof fn lemma_part_of_run(replies: Seq<ReplyView>, end: int, first: int, last: int)
    requires
        3 <= end <= replies.len(),
        0 <= first <= last <= end - 3,
    ensures
        replies.subrange(3, end).subrange(first, last) == replies.subrange(first + 3, last + 3),
{
    assert(replies.subrange(3, end).subrange(first, last) =~= replies.subrange(
        first + 3,
        last + 3,
    ));
}

/// Outside its branches the command says of a failure just what it was told of it.
/// In its branches it says what the stack says.
pub proof fn law_failure_is_said_as_it_was_told(
    config: ConfigView,
    opts: StackedOptionsView,
    command: CommandView,
    cause: Trail,
)
    requires
        command.request(config).admits(ReplyView::Failed(cause)),
    ensures
        match command {
            CommandView::Handling { branches } => branches.next(
                config,
                opts,
                ReplyView::Failed(cause),
            ) matches Step::Finished(Err(trail)) ==> command.next(
                config,
                opts,
                ReplyView::Failed(cause),
            ) == Step::<CommandView, (), Trail>::Finished(Err(trail)),
            _ => command.next(config, opts, ReplyView::Failed(cause)) == Step::<
                CommandView,
                (),
                Trail,
            >::Finished(Err(cause)),
        },
{
}

/// The command fails only where something that it asked for failed, or where the
/// stack is refused; what failed is then said first.
pub proof fn law_failure_has_a_cause(
    config: ConfigView,
    opts: StackedOptionsView,
    command: CommandView,
    reply: ReplyView,
)
    requires
        command.request(config).admits(reply),
    ensures
        command.next(config, opts, reply) matches Step::Finished(Err(trail)) ==> match reply {
            ReplyView::Failed(cause) => {
                ||| cause.is_prefix_of(trail)
                ||| command.request(config) is Push && trail == reworded(
                    cause,
                    "git push failed"@,
                ).push("do_stacked"@)
            },
            ReplyView::Revisions(revisions) => !single_parents(revisions),
            ReplyView::PullRequests(fetched) => first_failure(fetched) == Some(trail),
            _ => false,
        },
{
    if let ReplyView::Failed(cause) = reply {
        assert(cause.is_prefix_of(cause));
        assert(forall|one: Seq<char>| cause.is_prefix_of(#[trigger] cause.push(one)));
        assert(forall|one: Seq<char>, two: Seq<char>|
            cause.is_prefix_of(#[trigger] cause.push(one).push(two)));
    }
    if let ReplyView::Revisions(revisions) = reply {
        lemma_first_odd(revisions);
        if first_odd(revisions) is Some {
            let i = choose|i: int|
                {
                    &&& 0 <= i < revisions.len()
                    &&& #[trigger] revisions[i] == first_odd(revisions)->0
                    &&& revisions[i].parent_ids.len() != 1
                    &&& single_parents(revisions.take(i))
                };
            assert(revisions[i].parent_ids.len() != 1);
        }
    }
}

/// Whatever fails ends the command with a failure, but for the look at a branch
/// of the remote that may not be there yet.
pub proof fn law_failure_ends_command(
    config: ConfigView,
    opts: StackedOptionsView,
    command: CommandView,
    trail: Trail,
)
    requires
        command.request(config).admits(ReplyView::Failed(trail)),
    ensures
        command.next(config, opts, ReplyView::Failed(trail)) is Waiting ==> command.request(
            config,
        ) is ResolveRef,
        !(command.next(config, opts, ReplyView::Failed(trail)) matches Step::Finished(Ok(_))),
{
}

/// When the command ends well, exactly as many pull requests were created as there
/// were revisions without one.
pub proof fn law_every_revision_gets_a_pull_request(
    config: ConfigView,
    opts: StackedOptionsView,
    replies: Seq<ReplyView>,
)
    requires
        command_replies(config, opts, replies),
        command_after(config, opts, replies) matches Step::Finished(Ok(_)),
    ensures
        replies[0] is Revisions,
        created(replies) == without_pull_request(told_revisions(replies)),
{
    lemma_command_fits(config, opts, replies);
}

/// How many replies the command can still be given, once it knows its revisions.
pub open spec fn command_rank(command: CommandView) -> nat {
    match command {
        CommandView::Reading => 0,
        CommandView::Leaving => 1,
        CommandView::Trunk { revisions } => 16 * revisions.len() + 2,
        CommandView::Fetching { revisions, .. } => 16 * revisions.len() + 1,
        CommandView::Handling { branches } => branches_rank(branches) + 4 * (branches.seen.len() + 1
            + branches.queue.len()),
        CommandView::Creating { queue, .. } => 4 * queue.len() + 4,
        CommandView::Linking { queue, .. } => 4 * queue.len() + 3,
        CommandView::Announcing { queue, .. } => 4 * queue.len() + 2,
        CommandView::Storing { queue, .. } => 4 * queue.len() + 1,
    }
}

/// Every run ends: once the revisions are read, each reply brings the command
/// nearer to its end.
pub proof fn law_command_ends(
    config: ConfigView,
    opts: StackedOptionsView,
    command: CommandView,
    reply: ReplyView,
)
    requires
        !(command is Reading),
        command.request(config).admits(reply),
    ensures
        command.next(config, opts, reply) matches Step::Waiting(later) ==> !(later is Reading)
            && command_rank(later) < command_rank(command),
{
    match command {
        CommandView::Handling { branches } => {
            law_stack_ends(config, opts, branches, reply);
        },
        CommandView::Fetching { revisions, .. } => {
            if let ReplyView::PullRequests(fetched) = reply {
                lemma_paired(revisions, outcome_values(fetched));
            }
        },
        _ => {},
    }
}

/// While the branches are being brought up to date, all replies behind the first
/// three are those of the stack, from its start on. What holds of every stack
/// holds of it.
pub proof fn law_command_runs_stack(
    config: ConfigView,
    opts: StackedOptionsView,
    replies: Seq<ReplyView>,
)
    requires
        command_replies(config, opts, replies),
    ensures
        command_after(config, opts, replies) matches Step::Waiting(CommandView::Handling {
            branches,
        }) ==> replies.len() >= 3 && stack_runs(config, opts, replies, branches),
{
    lemma_command_fits(config, opts, replies);
}

/// The command starts by reading the revisions between the current one and what is
/// merged.
pub proof fn law_command_starts_with_its_revisions(
    command: Command,
    config: Config,
    opts: StackedOptionsView,
    action: Action,
)
    requires
        call_ensures(Command::start, (), command),
        call_ensures(Command::request, (&command, &config), action),
    ensures
        action@ == (ActionView::ReadRevisions {
            revset: "::@ ~ (immutable() | description(exact:\"\"))"@,
        }),
        command_after(config@, opts, Seq::empty()) == Step::<CommandView, (), Trail>::Waiting(
            command@,
        ),
{
}

/// The command that is given its replies one by one stands where the row of them
/// says.
pub proof fn law_command_follows_its_replies(
    config: Config,
    opts: StackedOptions,
    replies: Seq<ReplyView>,
    command: Command,
    action: Action,
    reply: Reply,
    step: Step<Command, (), Error>,
)
    requires
        command_after(config@, opts@, replies) == Step::<CommandView, (), Trail>::Waiting(command@),
        call_ensures(Command::request, (&command, &config), action),
        call_ensures(stacked, (&config, &opts, command, reply), step),
    ensures
        action@ == command_after(config@, opts@, replies)->Waiting_0.request(config@),
        step_view(step) == command_after(config@, opts@, replies.push(reply@)),
{
    assert(replies.push(reply@).drop_last() =~= replies);
}

/// The error for a revision that does not have exactly one parent names it.
pub proof fn law_odd_error_names_revision(quoted_id: &str, error: Error)
    requires
        call_ensures(odd_error, (quoted_id,), error),
    ensures
        error@ == seq!["Found commit with more than one parent ChangeId("@ + quoted_id@ + ")"@],
{
}

} // verus!
