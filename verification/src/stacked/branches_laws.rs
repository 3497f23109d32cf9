//! What holds of every stack of branches, whatever is told on the way.

use vstd::prelude::*;

use crate::config::{Config, ConfigView};
use crate::error::Error;
use crate::jj::RevisionView;
use crate::oid::{hex, lemma_hex_without_slash, Oid};
use crate::stacked::branches::{
    base_branch_of, base_ref_of, branches_step_view, first_named, handle_revs, start_revs,
    BranchAction, BranchActionView, Branches, BranchesView, Entry, EntryView, PhaseView,
};
use crate::stacked::exchange::{Action, ActionView, Reply, ReplyView};
use crate::stacked::update::UpdateView;
use crate::stacked::update_laws::{
    law_push_follows_commit, law_update_ends, update_after, update_rank, update_replies,
};
use crate::stacked::{StackedOptions, StackedOptionsView, Step, Trail};
use crate::text::{
    law_prefix_comes_off, law_prefix_comes_off_or_is_missing, views, without_prefix,
};

verus! {

/// Where a stack stands after a row of replies.
pub open spec fn branches_after(
    config: ConfigView,
    opts: StackedOptionsView,
    trunk: Oid,
    entries: Seq<EntryView>,
    replies: Seq<ReplyView>,
) -> Step<BranchesView, Seq<BranchActionView>, Trail>
    decreases replies.len(),
{
    if replies.len() == 0 {
        BranchesView::turn(config, trunk, Seq::empty(), entries)
    } else {
        match branches_after(config, opts, trunk, entries, replies.drop_last()) {
            Step::Waiting(branches) => branches.next(config, opts, replies.last()),
            finished => finished,
        }
    }
}

/// Whether a row of replies is one that a stack can be given: each is of the kind
/// that was asked for, and none comes after the end.
pub open spec fn branches_replies(
    config: ConfigView,
    opts: StackedOptionsView,
    trunk: Oid,
    entries: Seq<EntryView>,
    replies: Seq<ReplyView>,
) -> bool
    decreases replies.len(),
{
    replies.len() > 0 ==> {
        &&& branches_replies(config, opts, trunk, entries, replies.drop_last())
        &&& match branches_after(config, opts, trunk, entries, replies.drop_last()) {
            Step::Waiting(branches) => branches.request(config).admits(replies.last()),
            _ => false,
        }
    }
}

/// Whether two revisions differ in nothing but the last commit that their
/// messages name.
pub open spec fn same_but_last_commit(one: RevisionView, two: RevisionView) -> bool {
    &&& one.id == two.id
    &&& one.parent_ids == two.parent_ids
    &&& one.pull_request_number == two.pull_request_number
    &&& one.message.title == two.message.title
    &&& one.message.pull_request == two.message.pull_request
    &&& one.message.others == two.message.others
}

/// The number of the pull request of an entry.
pub open spec fn number_of(entry: EntryView) -> Option<u64> {
    match entry.pull_request {
        Some(pull_request) => Some(pull_request.number),
        None => None,
    }
}

/// Whether a branch is the one that an entry should have got, given the branches
/// that were done before it.
pub open spec fn branch_fits(
    config: ConfigView,
    trunk: Oid,
    before: Seq<BranchActionView>,
    entry: EntryView,
    action: BranchActionView,
) -> bool {
    &&& same_but_last_commit(action.revision, entry.revision)
    &&& action.existing_nr == number_of(entry)
    &&& entry.pull_request matches Some(pull_request) ==> action.head_branch
        == pull_request.head.branch_name
    &&& action.base_branch == base_branch_of(config, base_ref_of(config, trunk, before, entry))
}

/// Whether branches are those that the first entries should have got.
pub open spec fn branches_fit(
    config: ConfigView,
    trunk: Oid,
    entries: Seq<EntryView>,
    seen: Seq<BranchActionView>,
) -> bool {
    &&& seen.len() <= entries.len()
    &&& forall|k: int|
        0 <= k < seen.len() ==> branch_fits(
            config,
            trunk,
            seen.take(k),
            entries[k],
            #[trigger] seen[k],
        )
}

/// What a stack has come to at any time.
pub open spec fn stack_fits(
    config: ConfigView,
    trunk: Oid,
    entries: Seq<EntryView>,
    branches: BranchesView,
) -> bool {
    let turn = branches.seen.len() as int;
    &&& branches.trunk == trunk
    &&& branches_fit(config, trunk, entries, branches.seen)
    &&& turn < entries.len()
    &&& branches.queue == entries.skip(turn + 1)
    &&& match branches.phase {
        PhaseView::Naming { revision } => revision == entries[turn].revision
            && entries[turn].pull_request is None,
        PhaseView::Updating { base_ref, existing_nr, update } => {
            &&& base_ref == base_ref_of(config, trunk, branches.seen, entries[turn])
            &&& existing_nr == number_of(entries[turn])
            &&& same_but_last_commit(update.revision, entries[turn].revision)
            &&& update.base_ref == (match base_ref {
                Some(base_ref) => base_ref,
                None => hex(trunk.bytes@),
            })
            &&& entries[turn].pull_request matches Some(pull_request) ==> update.head_branch
                == pull_request.head.branch_name
        },
    }
}

/// What a step of a stack has come to.
pub open spec fn step_fits(
    config: ConfigView,
    trunk: Oid,
    entries: Seq<EntryView>,
    step: Step<BranchesView, Seq<BranchActionView>, Trail>,
) -> bool {
    match step {
        Step::Waiting(branches) => stack_fits(config, trunk, entries, branches),
        Step::Finished(Ok(actions)) => branches_fit(config, trunk, entries, actions)
            && actions.len() == entries.len(),
        Step::Finished(Err(_)) => true,
    }
}

/// An update changes nothing of its revision but the last commit, and nothing of
/// where it goes.
proof fn lemma_update_keeps(opts: StackedOptionsView, update: UpdateView, reply: ReplyView)
    ensures
        match update.next(opts, reply) {
            Step::Waiting(later) => {
                &&& same_but_last_commit(later.revision, update.revision)
                &&& later.base_ref == update.base_ref
                &&& later.head_branch == update.head_branch
            },
            Step::Finished(Ok(revision)) => same_but_last_commit(revision, update.revision),
            _ => true,
        },
{
}

/// Turning to the next revision keeps what the stack has come to.
proof fn lemma_turn_fits(
    config: ConfigView,
    trunk: Oid,
    entries: Seq<EntryView>,
    seen: Seq<BranchActionView>,
)
    requires
        branches_fit(config, trunk, entries, seen),
    ensures
        match BranchesView::turn(config, trunk, seen, entries.skip(seen.len() as int)) {
            Step::Waiting(branches) => stack_fits(config, trunk, entries, branches),
            Step::Finished(Ok(actions)) => actions == seen && seen.len() == entries.len(),
            Step::Finished(Err(_)) => false,
        },
{
    let queue = entries.skip(seen.len() as int);
    if queue.len() > 0 {
        assert(queue[0] == entries[seen.len() as int]);
        assert(queue.skip(1) =~= entries.skip(seen.len() as int + 1));
    }
}

/// A reply keeps what the stack has come to.
proof fn lemma_step_fits(
    config: ConfigView,
    opts: StackedOptionsView,
    trunk: Oid,
    entries: Seq<EntryView>,
    branches: BranchesView,
    reply: ReplyView,
)
    requires
        stack_fits(config, trunk, entries, branches),
        branches.request(config).admits(reply),
    ensures
        step_fits(config, trunk, entries, branches.next(config, opts, reply)),
{
    if let PhaseView::Updating { base_ref, existing_nr, update } = branches.phase {
        lemma_update_keeps(opts, update, reply);
        if let Step::Finished(Ok(revision)) = update.next(opts, reply) {
            let action = BranchActionView {
                revision,
                head_branch: update.head_branch,
                base_branch: base_branch_of(config, base_ref),
                existing_nr,
            };
            let seen = branches.seen.push(action);
            let turn = branches.seen.len() as int;
            assert forall|k: int| 0 <= k < seen.len() implies branch_fits(
                config,
                trunk,
                seen.take(k),
                entries[k],
                #[trigger] seen[k],
            ) by {
                if k < turn {
                    assert(branches.seen[k] == seen[k]);
                    assert(seen.take(k) =~= branches.seen.take(k));
                } else {
                    assert(seen.take(k) =~= branches.seen);
                }
            }
            assert(branches.queue =~= entries.skip(seen.len() as int));
            lemma_turn_fits(config, trunk, entries, seen);
        }
    }
}

/// What a stack starts with fits its entries.
proof fn lemma_start_fits(config: ConfigView, trunk: Oid, entries: Seq<EntryView>)
    ensures
        step_fits(config, trunk, entries, BranchesView::turn(config, trunk, Seq::empty(), entries)),
{
    assert(entries.skip(0) =~= entries);
    lemma_turn_fits(config, trunk, entries, Seq::empty());
}

/// What a stack has come to fits its entries at any time.
pub(crate) proof fn lemma_stack_fits(
    config: ConfigView,
    opts: StackedOptionsView,
    trunk: Oid,
    entries: Seq<EntryView>,
    replies: Seq<ReplyView>,
)
    requires
        branches_replies(config, opts, trunk, entries, replies),
    ensures
        step_fits(config, trunk, entries, branches_after(config, opts, trunk, entries, replies)),
    decreases replies.len(),
{
    if replies.len() == 0 {
        lemma_start_fits(config, trunk, entries);
    } else {
        lemma_stack_fits(config, opts, trunk, entries, replies.drop_last());
        let before = branches_after(config, opts, trunk, entries, replies.drop_last());
        if let Step::Waiting(branches) = before {
            lemma_step_fits(config, opts, trunk, entries, branches, replies.last());
        }
    }
}

/// The first branch with a name is the one with no other before it.
proof fn lemma_first_named(seen: Seq<BranchActionView>, id: Seq<char>)
    ensures
        match first_named(seen, id) {
            Some(action) => exists|j: int|
                0 <= j < seen.len() && #[trigger] seen[j] == action && action.revision.id == id && (
                forall|i: int| 0 <= i < j ==> (#[trigger] seen[i]).revision.id != id),
            None => forall|i: int| 0 <= i < seen.len() ==> (#[trigger] seen[i]).revision.id != id,
        },
    decreases seen.len(),
{
    if seen.len() > 0 {
        let earlier = seen.drop_last();
        lemma_first_named(earlier, id);
        assert(forall|i: int| 0 <= i < earlier.len() ==> earlier[i] == #[trigger] seen[i]);
        match first_named(earlier, id) {
            Some(action) => {
                let j = choose|j: int|
                    0 <= j < earlier.len() && #[trigger] earlier[j] == action && action.revision.id
                        == id && (forall|i: int|
                        0 <= i < j ==> (#[trigger] earlier[i]).revision.id != id);
                assert(seen[j] == action);
                assert forall|i: int| 0 <= i < j implies (#[trigger] seen[i]).revision.id != id by {
                    assert(earlier[i].revision.id != id);
                }
            },
            None => {
                assert forall|i: int| 0 <= i < earlier.len() implies (
                #[trigger] seen[i]).revision.id != id by {
                    assert(earlier[i].revision.id != id);
                }
                if seen.last().revision.id == id {
                    assert(seen[seen.len() - 1] == seen.last());
                }
            },
        }
    }
}

/// Every revision gets a branch, in the order of the stack, and comes out as it
/// went in but for the last commit. One with a pull request keeps its number and
/// its branch; any other has no number.
pub proof fn law_every_revision_gets_a_branch(
    config: ConfigView,
    opts: StackedOptionsView,
    trunk: Oid,
    entries: Seq<EntryView>,
    replies: Seq<ReplyView>,
)
    requires
        branches_replies(config, opts, trunk, entries, replies),
    ensures
        branches_after(config, opts, trunk, entries, replies) matches Step::Finished(Ok(actions))
            ==> {
            &&& actions.len() == entries.len()
            &&& forall|k: int|
                0 <= k < actions.len() ==> {
                    &&& (#[trigger] actions[k]).revision.id == entries[k].revision.id
                    &&& actions[k].revision.parent_ids == entries[k].revision.parent_ids
                    &&& actions[k].revision.pull_request_number
                        == entries[k].revision.pull_request_number
                    &&& actions[k].revision.message.title == entries[k].revision.message.title
                    &&& actions[k].revision.message.pull_request
                        == entries[k].revision.message.pull_request
                    &&& actions[k].revision.message.others == entries[k].revision.message.others
                    &&& same_but_last_commit(actions[k].revision, entries[k].revision)
                    &&& match entries[k].pull_request {
                        Some(pull_request) => {
                            &&& actions[k].existing_nr == Some(pull_request.number)
                            &&& actions[k].head_branch == pull_request.head.branch_name
                        },
                        None => actions[k].existing_nr is None,
                    }
                }
        },
{
    lemma_stack_fits(config, opts, trunk, entries, replies);
}

/// A revision without a pull request whose parent is in the stack goes on top of
/// the branch of the parent: that branch of the remote is the base of its own
/// branch, and its pull request is made against it.
pub proof fn law_child_goes_on_parent(
    config: ConfigView,
    opts: StackedOptionsView,
    trunk: Oid,
    entries: Seq<EntryView>,
    replies: Seq<ReplyView>,
    parent: int,
    child: int,
)
    requires
        branches_replies(config, opts, trunk, entries, replies),
        0 <= parent < child < entries.len(),
        entries[child].pull_request is None,
        entries[child].revision.parent_ids.len() > 0,
        entries[child].revision.parent_ids[0] == entries[parent].revision.id,
        forall|i: int|
            0 <= i < parent ==> (#[trigger] entries[i]).revision.id != entries[parent].revision.id,
    ensures
        match branches_after(config, opts, trunk, entries, replies) {
            Step::Finished(Ok(actions)) => actions[child].base_branch
                == actions[parent].head_branch,
            Step::Finished(Err(_)) => true,
            Step::Waiting(branches) => branches.seen.len() == child ==> (
            branches.phase matches PhaseView::Updating { update, .. } ==> update.base_ref
                == config.remote_name + "/"@ + branches.seen[parent].head_branch),
        },
{
    lemma_stack_fits(config, opts, trunk, entries, replies);
    match branches_after(config, opts, trunk, entries, replies) {
        Step::Finished(Ok(actions)) => {
            lemma_same_ids(config, trunk, entries, actions);
            lemma_parent_is_found(entries, actions, parent, child);
            assert(branch_fits(config, trunk, actions.take(child), entries[child], actions[child]));
            law_prefix_comes_off(config.remote_name + "/"@, actions[parent].head_branch);
        },
        Step::Waiting(branches) => {
            if branches.seen.len() == child {
                assert(branches.seen.take(child) =~= branches.seen);
                lemma_same_ids(config, trunk, entries, branches.seen);
                lemma_parent_is_found(entries, branches.seen, parent, child);
            }
        },
        _ => {},
    }
}

/// Among the branches that were done before a revision, the one of its parent is
/// found.
pub(crate) proof fn lemma_parent_is_found(
    entries: Seq<EntryView>,
    seen: Seq<BranchActionView>,
    parent: int,
    child: int,
)
    requires
        same_ids(entries, seen),
        0 <= parent < child <= seen.len(),
        forall|i: int|
            0 <= i < parent ==> (#[trigger] entries[i]).revision.id != entries[parent].revision.id,
    ensures
        first_named(seen.take(child), entries[parent].revision.id) == Some(seen[parent]),
{
    let before = seen.take(child);
    let id = entries[parent].revision.id;
    lemma_first_named(before, id);
    assert(before[parent] == seen[parent]);
    let action = first_named(before, id)->0;
    let j = choose|j: int|
        0 <= j < before.len() && #[trigger] before[j] == action && action.revision.id == id && (
        forall|i: int| 0 <= i < j ==> (#[trigger] before[i]).revision.id != id);
    assert(before[j] == seen[j]);
    if j < parent {
        assert(entries[j].revision.id != id);
    }
}

/// Whether branches have the names of the revisions that they were made for.
pub open spec fn same_ids(entries: Seq<EntryView>, seen: Seq<BranchActionView>) -> bool {
    &&& seen.len() <= entries.len()
    &&& forall|k: int|
        0 <= k < seen.len() ==> (#[trigger] seen[k]).revision.id == entries[k].revision.id
}

/// Branches have the names of the revisions that they were made for.
pub(crate) proof fn lemma_same_ids(
    config: ConfigView,
    trunk: Oid,
    entries: Seq<EntryView>,
    seen: Seq<BranchActionView>,
)
    requires
        branches_fit(config, trunk, entries, seen),
    ensures
        same_ids(entries, seen),
{
    assert forall|k: int| 0 <= k < seen.len() implies (#[trigger] seen[k]).revision.id
        == entries[k].revision.id by {
        assert(branch_fits(config, trunk, seen.take(k), entries[k], seen[k]));
    }
}

/// A revision without a pull request whose parent is not in the stack goes on top
/// of the commit that the stack grows from, and its pull request is made against
/// the branch that everything is merged into.
pub proof fn law_lowest_goes_on_trunk(
    config: ConfigView,
    opts: StackedOptionsView,
    trunk: Oid,
    entries: Seq<EntryView>,
    replies: Seq<ReplyView>,
    lowest: int,
)
    requires
        branches_replies(config, opts, trunk, entries, replies),
        0 <= lowest < entries.len(),
        entries[lowest].pull_request is None,
        forall|i: int|
            0 <= i < lowest ==> (#[trigger] entries[i]).revision.id
                != entries[lowest].revision.parent_ids[0],
    ensures
        match branches_after(config, opts, trunk, entries, replies) {
            Step::Finished(Ok(actions)) => actions[lowest].base_branch == config.master_branch,
            Step::Finished(Err(_)) => true,
            Step::Waiting(branches) => branches.seen.len() == lowest ==> (
            branches.phase matches PhaseView::Updating { update, .. } ==> update.base_ref == hex(
                trunk.bytes@,
            )),
        },
{
    lemma_stack_fits(config, opts, trunk, entries, replies);
    match branches_after(config, opts, trunk, entries, replies) {
        Step::Finished(Ok(actions)) => {
            lemma_same_ids(config, trunk, entries, actions);
            lemma_no_parent_is_found(entries, actions, lowest);
            assert(branch_fits(
                config,
                trunk,
                actions.take(lowest),
                entries[lowest],
                actions[lowest],
            ));
        },
        Step::Waiting(branches) => {
            if branches.seen.len() == lowest {
                assert(branches.seen.take(lowest) =~= branches.seen);
                lemma_same_ids(config, trunk, entries, branches.seen);
                lemma_no_parent_is_found(entries, branches.seen, lowest);
            }
        },
        _ => {},
    }
}

/// Where no earlier revision is the parent of one, no branch of a parent is found.
proof fn lemma_no_parent_is_found(
    entries: Seq<EntryView>,
    seen: Seq<BranchActionView>,
    lowest: int,
)
    requires
        same_ids(entries, seen),
        0 <= lowest <= seen.len(),
        lowest < entries.len(),
        forall|i: int|
            0 <= i < lowest ==> (#[trigger] entries[i]).revision.id
                != entries[lowest].revision.parent_ids[0],
    ensures
        first_named(seen.take(lowest), entries[lowest].revision.parent_ids[0]) is None,
{
    let before = seen.take(lowest);
    let id = entries[lowest].revision.parent_ids[0];
    lemma_first_named(before, id);
    assert forall|k: int| 0 <= k < lowest implies (#[trigger] before[k]).revision.id != id by {
        assert(before[k] == seen[k]);
        assert(entries[k].revision.id != id);
    }
}

/// A ref that names a commit by its hexadecimal id names no branch of the remote.
proof fn lemma_hex_is_no_branch(config: ConfigView, oid: Oid)
    ensures
        base_branch_of(config, Some(hex(oid.bytes@))) == config.master_branch,
{
    let text = hex(oid.bytes@);
    let prefix = config.remote_name + "/"@;
    reveal_strlit("/");
    lemma_hex_without_slash(oid.bytes@);
    if prefix.is_prefix_of(text) {
        let at = config.remote_name.len() as int;
        assert(prefix[at] == '/');
        assert(text.subrange(0, prefix.len() as int)[at] == text[at]);
        assert(text.contains('/'));
    }
}

/// Whether a branch is the one that a pull request on top of a ref is made against:
/// the branch of the remote that the ref names, or the one that everything is
/// merged into where it names none.
pub open spec fn named_by(config: ConfigView, base_ref: Seq<char>, branch: Seq<char>) -> bool {
    ||| base_ref == config.remote_name + "/"@ + branch
    ||| branch == config.master_branch && forall|other: Seq<char>|
        base_ref != #[trigger] (config.remote_name + "/"@ + other)
}

/// The branch of the remote that a ref names is the one that a pull request on top
/// of it is made against.
proof fn lemma_named_by(config: ConfigView, base_ref: Seq<char>)
    ensures
        named_by(config, base_ref, base_branch_of(config, Some(base_ref))),
{
    let prefix = config.remote_name + "/"@;
    law_prefix_comes_off_or_is_missing(base_ref, prefix);
    match without_prefix(base_ref, prefix) {
        Some(branch) => {
            assert(base_ref == prefix + branch);
        },
        None => {
            assert forall|other: Seq<char>| base_ref != #[trigger] (config.remote_name + "/"@
                + other) by {
                assert(base_ref != prefix + other);
            }
        },
    }
}

/// A revision with a pull request stays where the pull request says: in the branch
/// that holds it, on top of what it is made against. Where that is the branch that
/// everything is merged into, the revision goes on top of the commit that the stack
/// grows from, and that branch stays its base; else it goes on top of the ref of
/// the branch that the pull request is made against, and the branch that the ref
/// names is its base.
pub proof fn law_pull_request_says_where(
    config: ConfigView,
    opts: StackedOptionsView,
    trunk: Oid,
    entries: Seq<EntryView>,
    replies: Seq<ReplyView>,
)
    requires
        branches_replies(config, opts, trunk, entries, replies),
    ensures
        match branches_after(config, opts, trunk, entries, replies) {
            Step::Waiting(branches) => branches.seen.len() < entries.len() && (
            entries[branches.seen.len() as int].pull_request matches Some(pull_request) ==> (
            branches.phase matches PhaseView::Updating { update, .. } && update.head_branch
                == pull_request.head.branch_name && update.base_ref == (
            if pull_request.base.is_master_branch {
                hex(trunk.bytes@)
            } else {
                pull_request.base.local
            }))),
            Step::Finished(Ok(actions)) => actions.len() == entries.len() && forall|k: int|
                0 <= k < entries.len() ==> ((#[trigger] entries[k]).pull_request matches Some(
                    pull_request,
                ) ==> if pull_request.base.is_master_branch {
                    actions[k].base_branch == config.master_branch
                } else {
                    &&& named_by(config, pull_request.base.local, actions[k].base_branch)
                    &&& actions[k].base_branch == base_branch_of(
                        config,
                        Some(pull_request.base.local),
                    )
                }),
            Step::Finished(Err(_)) => true,
        },
{
    lemma_stack_fits(config, opts, trunk, entries, replies);
    lemma_hex_is_no_branch(config, trunk);
    if let Step::Finished(Ok(actions)) = branches_after(config, opts, trunk, entries, replies) {
        assert forall|k: int| 0 <= k < entries.len() implies (
        (#[trigger] entries[k]).pull_request matches Some(pull_request) ==> if
        pull_request.base.is_master_branch {
            actions[k].base_branch == config.master_branch
        } else {
            &&& named_by(config, pull_request.base.local, actions[k].base_branch)
            &&& actions[k].base_branch == base_branch_of(config, Some(pull_request.base.local))
        }) by {
            assert(branch_fits(config, trunk, actions.take(k), entries[k], actions[k]));
            if let Some(pull_request) = entries[k].pull_request {
                lemma_named_by(config, pull_request.base.local);
            }
        }
    }
}

/// Whether a name was given to the branch of an entry: at that reply the stack
/// had come to the entry, asked for a name by its title, and was told this one.
pub open spec fn named_at(
    config: ConfigView,
    opts: StackedOptionsView,
    trunk: Oid,
    entries: Seq<EntryView>,
    replies: Seq<ReplyView>,
    entry: int,
    name: Seq<char>,
    at: int,
) -> bool {
    &&& 0 <= at < replies.len()
    &&& branches_after(config, opts, trunk, entries, replies.take(at)) matches Step::Waiting(
        branches,
    )
    &&& branches.seen.len() == entry
    &&& branches.request(config) == (ActionView::NewBranchName {
        title: match entries[entry].revision.message.title {
            Some(title) => title,
            None => Seq::empty(),
        },
    })
    &&& replies[at] == ReplyView::Text(name)
}

/// Whether the branch of an entry has the name that was given to it.
pub open spec fn has_given_name(
    config: ConfigView,
    opts: StackedOptionsView,
    trunk: Oid,
    entries: Seq<EntryView>,
    replies: Seq<ReplyView>,
    entry: int,
    name: Seq<char>,
) -> bool {
    exists|at: int| #[trigger]
        named_at(config, opts, trunk, entries, replies, entry, name, at)
}

/// A name stays given.
proof fn lemma_name_stays(
    config: ConfigView,
    opts: StackedOptionsView,
    trunk: Oid,
    entries: Seq<EntryView>,
    replies: Seq<ReplyView>,
    entry: int,
    name: Seq<char>,
)
    requires
        replies.len() > 0,
        has_given_name(config, opts, trunk, entries, replies.drop_last(), entry, name),
    ensures
        has_given_name(config, opts, trunk, entries, replies, entry, name),
{
    let earlier = replies.drop_last();
    let at = choose|at: int| #[trigger]
        named_at(config, opts, trunk, entries, earlier, entry, name, at);
    assert(replies.take(at) =~= earlier.take(at));
    assert(named_at(config, opts, trunk, entries, replies, entry, name, at));
}

/// Turning to the next revision leaves the branches that are done as they are.
proof fn lemma_turn_keeps_seen(
    config: ConfigView,
    trunk: Oid,
    seen: Seq<BranchActionView>,
    queue: Seq<EntryView>,
)
    ensures
        match BranchesView::turn(config, trunk, seen, queue) {
            Step::Waiting(branches) => {
                &&& branches.seen == seen
                &&& branches.phase is Updating ==> queue[0].pull_request is Some
            },
            Step::Finished(outcome) => outcome == Ok::<Seq<BranchActionView>, Trail>(seen),
        },
{
}

/// The branch of a revision without a pull request has the name that was given
/// when the stack asked for one by the title of the revision.
pub proof fn law_new_branch_has_given_name(
    config: ConfigView,
    opts: StackedOptionsView,
    trunk: Oid,
    entries: Seq<EntryView>,
    replies: Seq<ReplyView>,
)
    requires
        branches_replies(config, opts, trunk, entries, replies),
    ensures
        match branches_after(config, opts, trunk, entries, replies) {
            Step::Waiting(branches) => {
                &&& forall|k: int|
                    0 <= k < branches.seen.len() && entries[k].pull_request is None
                        ==> has_given_name(
                        config,
                        opts,
                        trunk,
                        entries,
                        replies,
                        k,
                        (#[trigger] branches.seen[k]).head_branch,
                    )
                &&& entries[branches.seen.len() as int].pull_request is None ==> (
                branches.phase matches PhaseView::Updating { update, .. } ==> has_given_name(
                    config,
                    opts,
                    trunk,
                    entries,
                    replies,
                    branches.seen.len() as int,
                    update.head_branch,
                ))
            },
            Step::Finished(Ok(actions)) => forall|k: int|
                0 <= k < actions.len() && entries[k].pull_request is None ==> has_given_name(
                    config,
                    opts,
                    trunk,
                    entries,
                    replies,
                    k,
                    (#[trigger] actions[k]).head_branch,
                ),
            Step::Finished(Err(_)) => true,
        },
    decreases replies.len(),
{
    if replies.len() == 0 {
        lemma_turn_keeps_seen(config, trunk, Seq::empty(), entries);
    } else {
        let earlier = replies.drop_last();
        let reply = replies.last();
        law_new_branch_has_given_name(config, opts, trunk, entries, earlier);
        lemma_stack_fits(config, opts, trunk, entries, earlier);
        let before = branches_after(config, opts, trunk, entries, earlier)->Waiting_0;
        let turn = before.seen.len() as int;
        assert forall|k: int, name: Seq<char>|
            has_given_name(config, opts, trunk, entries, earlier, k, name) implies has_given_name(
            config,
            opts,
            trunk,
            entries,
            replies,
            k,
            name,
        ) by {
            lemma_name_stays(config, opts, trunk, entries, replies, k, name);
        }
        match before.phase {
            PhaseView::Naming { .. } => {
                if let ReplyView::Text(name) = reply {
                    assert(replies.take(earlier.len() as int) =~= earlier);
                    assert(named_at(
                        config,
                        opts,
                        trunk,
                        entries,
                        replies,
                        turn,
                        name,
                        earlier.len() as int,
                    ));
                }
            },
            PhaseView::Updating { base_ref, existing_nr, update } => {
                lemma_update_keeps(opts, update, reply);
                if let Step::Finished(Ok(revision)) = update.next(opts, reply) {
                    let action = BranchActionView {
                        revision,
                        head_branch: update.head_branch,
                        base_branch: base_branch_of(config, base_ref),
                        existing_nr,
                    };
                    let seen = before.seen.push(action);
                    lemma_turn_keeps_seen(config, trunk, seen, before.queue);
                    assert forall|k: int|
                        0 <= k < seen.len() && entries[k].pull_request is None
                    implies has_given_name(
                        config,
                        opts,
                        trunk,
                        entries,
                        replies,
                        k,
                        (#[trigger] seen[k]).head_branch,
                    ) by {
                        if k < turn {
                            assert(seen[k] == before.seen[k]);
                        }
                    }
                    assert(before.queue.len() > 0 ==> before.queue[0] == entries[turn + 1]);
                }
            },
        }
    }
}

/// How many replies a stack can still be given.
pub open spec fn branches_rank(branches: BranchesView) -> nat {
    12 * branches.queue.len() + match branches.phase {
        PhaseView::Naming { .. } => 12,
        PhaseView::Updating { update, .. } => update_rank(update),
    }
}

/// Every stack ends: each reply brings it nearer to its end, which comes after at
/// most twelve replies for each revision.
pub proof fn law_stack_ends(
    config: ConfigView,
    opts: StackedOptionsView,
    branches: BranchesView,
    reply: ReplyView,
)
    requires
        branches.request(config).admits(reply),
    ensures
        1 <= branches_rank(branches) <= 12 * (branches.queue.len() + 1),
        branches.next(config, opts, reply) matches Step::Waiting(later) ==> branches_rank(later)
            < branches_rank(branches),
{
    if let PhaseView::Updating { update, .. } = branches.phase {
        law_update_ends(config, opts, update, reply);
    }
}

/// A branch that cannot be updated ends the stack: what failed is said first, and
/// that it happened in an update last. No later revision is touched.
pub proof fn law_failed_update_ends_stack(
    config: ConfigView,
    opts: StackedOptionsView,
    branches: BranchesView,
    reply: ReplyView,
    trail: Trail,
)
    requires
        branches.phase matches PhaseView::Updating { update, .. } && update.next(opts, reply)
            == Step::<UpdateView, RevisionView, Trail>::Finished(Err(trail)),
    ensures
        branches.next(config, opts, reply) == Step::<
            BranchesView,
            Seq<BranchActionView>,
            Trail,
        >::Finished(Err(trail.push("do_stacked"@))),
{
}

/// Without a name for a branch the stack ends, with what failed.
pub proof fn law_failed_name_ends_stack(
    config: ConfigView,
    opts: StackedOptionsView,
    branches: BranchesView,
    trail: Trail,
)
    requires
        branches.request(config) is NewBranchName,
    ensures
        branches.next(config, opts, ReplyView::Failed(trail)) == Step::<
            BranchesView,
            Seq<BranchActionView>,
            Trail,
        >::Finished(Err(trail)),
{
}

/// Whether an update has come to where it stands by a row of replies.
pub open spec fn runs_update(
    config: ConfigView,
    opts: StackedOptionsView,
    revision: RevisionView,
    update: UpdateView,
    replies: Seq<ReplyView>,
) -> bool {
    let start = UpdateView::start(revision, update.base_ref, update.head_branch);
    &&& update_replies(config, opts, start, replies)
    &&& update_after(opts, start, replies) == Step::<UpdateView, RevisionView, Trail>::Waiting(
        update,
    )
}

/// A reply takes the run of an update further.
proof fn lemma_update_goes_on(
    config: ConfigView,
    opts: StackedOptionsView,
    revision: RevisionView,
    update: UpdateView,
    later: UpdateView,
    replies: Seq<ReplyView>,
    reply: ReplyView,
)
    requires
        runs_update(config, opts, revision, update, replies),
        update.request(config).admits(reply),
        update.next(opts, reply) == Step::<UpdateView, RevisionView, Trail>::Waiting(later),
    ensures
        runs_update(config, opts, revision, later, replies.push(reply)),
{
    lemma_update_keeps(opts, update, reply);
    assert(replies.push(reply).drop_last() =~= replies);
}

/// An update that has just been turned to has not been given any reply.
proof fn lemma_fresh_update(
    config: ConfigView,
    opts: StackedOptionsView,
    trunk: Oid,
    seen: Seq<BranchActionView>,
    queue: Seq<EntryView>,
)
    ensures
        BranchesView::turn(config, trunk, seen, queue) matches Step::Waiting(branches) ==> (
        branches.phase matches PhaseView::Updating { update, .. } ==> branches.seen == seen
            && runs_update(config, opts, queue[0].revision, update, Seq::empty())),
{
}

/// While a branch is being updated, the last replies that the stack was given are
/// those of an update of that branch, from its start on. What holds of every
/// update holds of it.
pub proof fn law_stack_runs_updates(
    config: ConfigView,
    opts: StackedOptionsView,
    trunk: Oid,
    entries: Seq<EntryView>,
    replies: Seq<ReplyView>,
)
    requires
        branches_replies(config, opts, trunk, entries, replies),
    ensures
        branches_after(config, opts, trunk, entries, replies) matches Step::Waiting(branches) ==> (
        branches.phase matches PhaseView::Updating { update, .. } ==> exists|first: int|
            0 <= first <= replies.len() && runs_update(
                config,
                opts,
                entries[branches.seen.len() as int].revision,
                update,
                #[trigger] replies.skip(first),
            )),
    decreases replies.len(),
{
    let count = replies.len() as int;
    assert(replies.skip(count) =~= Seq::<ReplyView>::empty());
    if replies.len() == 0 {
        lemma_fresh_update(config, opts, trunk, Seq::empty(), entries);
    } else {
        let earlier = replies.drop_last();
        let reply = replies.last();
        law_stack_runs_updates(config, opts, trunk, entries, earlier);
        lemma_stack_fits(config, opts, trunk, entries, earlier);
        let before = branches_after(config, opts, trunk, entries, earlier)->Waiting_0;
        let turn = before.seen.len() as int;
        match before.phase {
            PhaseView::Naming { .. } => {},
            PhaseView::Updating { base_ref, existing_nr, update } => match update.next(opts, reply) {
                Step::Waiting(later) => {
                    let revision = entries[turn].revision;
                    let first = choose|first: int|
                        0 <= first <= earlier.len() && runs_update(
                            config,
                            opts,
                            revision,
                            update,
                            #[trigger] earlier.skip(first),
                        );
                    lemma_update_goes_on(
                        config,
                        opts,
                        revision,
                        update,
                        later,
                        earlier.skip(first),
                        reply,
                    );
                    assert(replies.skip(first) =~= earlier.skip(first).push(reply));
                },
                Step::Finished(Ok(revision)) => {
                    let action = BranchActionView {
                        revision,
                        head_branch: update.head_branch,
                        base_branch: base_branch_of(config, base_ref),
                        existing_nr,
                    };
                    lemma_fresh_update(
                        config,
                        opts,
                        trunk,
                        before.seen.push(action),
                        before.queue,
                    );
                    assert(before.queue.len() > 0 ==> before.queue[0] == entries[turn + 1]);
                },
                Step::Finished(Err(_)) => {},
            },
        }
    }
}

/// Whether an update is one of a revision with a pull request into the branch of
/// that pull request: the last replies are its replies from its start on, and what
/// it pushes goes to that branch of the configured remote.
pub open spec fn into_branch_of(
    config: ConfigView,
    opts: StackedOptionsView,
    revision: RevisionView,
    update: UpdateView,
    branch: Seq<char>,
    replies: Seq<ReplyView>,
    first: int,
) -> bool {
    &&& 0 <= first <= replies.len()
    &&& update.head_branch == branch
    &&& runs_update(config, opts, revision, update, replies.skip(first))
    &&& update.request(config) matches ActionView::Push { args } ==> {
        &&& replies.last() matches ReplyView::Id(commit)
        &&& args == seq![
            "push"@,
            "--atomic"@,
            "--no-verify"@,
            "--"@,
            config.remote_name,
            hex(commit.bytes@) + ":refs/heads/"@ + branch,
        ]
    }
}

/// A revision with a pull request is updated in the branch of that pull request.
pub proof fn law_update_is_into_branch_of_pull_request(
    config: ConfigView,
    opts: StackedOptionsView,
    trunk: Oid,
    entries: Seq<EntryView>,
    replies: Seq<ReplyView>,
)
    requires
        branches_replies(config, opts, trunk, entries, replies),
    ensures
        branches_after(config, opts, trunk, entries, replies) matches Step::Waiting(branches) ==> (
        entries[branches.seen.len() as int].pull_request matches Some(pull_request) ==> (
        branches.phase matches PhaseView::Updating { update, .. } && exists|first: int| #[trigger]
            into_branch_of(
                config,
                opts,
                entries[branches.seen.len() as int].revision,
                update,
                pull_request.head.branch_name,
                replies,
                first,
            ))),
{
    if let Step::Waiting(branches) = branches_after(config, opts, trunk, entries, replies) {
        law_pull_request_says_where(config, opts, trunk, entries, replies);
        law_stack_runs_updates(config, opts, trunk, entries, replies);
        let entry = entries[branches.seen.len() as int];
        if entry.pull_request is Some {
            let update = branches.phase->Updating_update;
            let first = choose|first: int|
                0 <= first <= replies.len() && runs_update(
                    config,
                    opts,
                    entry.revision,
                    update,
                    #[trigger] replies.skip(first),
                );
            lemma_push_is_into_branch(config, opts, entry.revision, update, replies, first);
        }
    }
}

/// What an update pushes goes to its branch.
proof fn lemma_push_is_into_branch(
    config: ConfigView,
    opts: StackedOptionsView,
    revision: RevisionView,
    update: UpdateView,
    replies: Seq<ReplyView>,
    first: int,
)
    requires
        0 <= first <= replies.len(),
        runs_update(config, opts, revision, update, replies.skip(first)),
    ensures
        into_branch_of(config, opts, revision, update, update.head_branch, replies, first),
{
    law_push_follows_commit(
        config,
        opts,
        revision,
        update.base_ref,
        update.head_branch,
        replies.skip(first),
    );
}

/// Whether a branch is what came of an update of a revision on top of a ref: the
/// update was given these replies, and ended with the revision that goes with the
/// branch.
pub open spec fn updated_by(
    config: ConfigView,
    opts: StackedOptionsView,
    revision: RevisionView,
    base_ref: Seq<char>,
    action: BranchActionView,
    replies: Seq<ReplyView>,
) -> bool {
    let start = UpdateView::start(revision, base_ref, action.head_branch);
    &&& update_replies(config, opts, start, replies)
    &&& update_after(opts, start, replies) == Step::<UpdateView, RevisionView, Trail>::Finished(
        Ok(action.revision),
    )
}

/// The ref that the branch of a revision goes on top of.
spec fn place(
    config: ConfigView,
    trunk: Oid,
    seen: Seq<BranchActionView>,
    entry: EntryView,
) -> Seq<char> {
    match base_ref_of(config, trunk, seen, entry) {
        Some(base_ref) => base_ref,
        None => hex(trunk.bytes@),
    }
}

/// Whether the branch of an entry was updated by the replies from one on, and up to
/// another.
spec fn ran_between(
    config: ConfigView,
    opts: StackedOptionsView,
    trunk: Oid,
    entries: Seq<EntryView>,
    seen: Seq<BranchActionView>,
    replies: Seq<ReplyView>,
    k: int,
    first: int,
    last: int,
) -> bool {
    &&& 0 <= first <= last <= replies.len()
    &&& updated_by(
        config,
        opts,
        entries[k].revision,
        place(config, trunk, seen.take(k), entries[k]),
        seen[k],
        replies.subrange(first, last),
    )
}

/// Whether the branch of an entry was updated.
#[verifier::opaque]
spec fn ran(
    config: ConfigView,
    opts: StackedOptionsView,
    trunk: Oid,
    entries: Seq<EntryView>,
    seen: Seq<BranchActionView>,
    replies: Seq<ReplyView>,
    k: int,
) -> bool {
    exists|first: int, last: int| #[trigger]
        ran_between(config, opts, trunk, entries, seen, replies, k, first, last)
}

/// Whether all branches that are done were updated.
spec fn all_ran(
    config: ConfigView,
    opts: StackedOptionsView,
    trunk: Oid,
    entries: Seq<EntryView>,
    seen: Seq<BranchActionView>,
    replies: Seq<ReplyView>,
) -> bool {
    forall|k: int|
        0 <= k < seen.len() ==> #[trigger] ran(config, opts, trunk, entries, seen, replies, k)
}

/// What was updated stays so when more is replied, and more branches are done.
proof fn lemma_ran_stays(
    config: ConfigView,
    opts: StackedOptionsView,
    trunk: Oid,
    entries: Seq<EntryView>,
    seen: Seq<BranchActionView>,
    more: Seq<BranchActionView>,
    replies: Seq<ReplyView>,
    k: int,
)
    requires
        replies.len() > 0,
        0 <= k < seen.len() <= more.len(),
        forall|i: int| 0 <= i < seen.len() ==> seen[i] == #[trigger] more[i],
        ran(config, opts, trunk, entries, seen, replies.drop_last(), k),
    ensures
        ran(config, opts, trunk, entries, more, replies, k),
{
    reveal(ran);
    let earlier = replies.drop_last();
    let (first, last) = choose|first: int, last: int| #[trigger]
        ran_between(config, opts, trunk, entries, seen, earlier, k, first, last);
    assert(replies.subrange(first, last) =~= earlier.subrange(first, last));
    assert(more.take(k) =~= seen.take(k));
    assert(seen[k] == more[k]);
    assert(ran_between(config, opts, trunk, entries, more, replies, k, first, last));
}

/// An update that ends well leaves its branch updated.
proof fn lemma_update_ran(
    config: ConfigView,
    opts: StackedOptionsView,
    trunk: Oid,
    entries: Seq<EntryView>,
    seen: Seq<BranchActionView>,
    action: BranchActionView,
    update: UpdateView,
    replies: Seq<ReplyView>,
    first: int,
)
    requires
        replies.len() > 0,
        0 <= first < replies.len(),
        runs_update(
            config,
            opts,
            entries[seen.len() as int].revision,
            update,
            replies.drop_last().skip(first),
        ),
        update.request(config).admits(replies.last()),
        update.next(opts, replies.last()) == Step::<UpdateView, RevisionView, Trail>::Finished(
            Ok(action.revision),
        ),
        update.head_branch == action.head_branch,
        update.base_ref == place(config, trunk, seen, entries[seen.len() as int]),
    ensures
        ran(config, opts, trunk, entries, seen.push(action), replies, seen.len() as int),
{
    reveal(ran);
    let turn = seen.len() as int;
    let run = replies.subrange(first, replies.len() as int);
    assert(run.drop_last() =~= replies.drop_last().skip(first));
    assert(run.last() == replies.last());
    assert(seen.push(action).take(turn) =~= seen);
    assert(ran_between(
        config,
        opts,
        trunk,
        entries,
        seen.push(action),
        replies,
        turn,
        first,
        replies.len() as int,
    ));
}

/// All branches that are done were updated.
proof fn lemma_all_ran(
    config: ConfigView,
    opts: StackedOptionsView,
    trunk: Oid,
    entries: Seq<EntryView>,
    replies: Seq<ReplyView>,
)
    requires
        branches_replies(config, opts, trunk, entries, replies),
    ensures
        match branches_after(config, opts, trunk, entries, replies) {
            Step::Waiting(branches) => all_ran(
                config,
                opts,
                trunk,
                entries,
                branches.seen,
                replies,
            ),
            Step::Finished(Ok(actions)) => all_ran(config, opts, trunk, entries, actions, replies),
            Step::Finished(Err(_)) => true,
        },
    decreases replies.len(),
{
    if replies.len() == 0 {
        lemma_turn_keeps_seen(config, trunk, Seq::empty(), entries);
    } else {
        let earlier = replies.drop_last();
        let reply = replies.last();
        lemma_all_ran(config, opts, trunk, entries, earlier);
        let before = branches_after(config, opts, trunk, entries, earlier)->Waiting_0;
        let done = before.seen;
        assert(all_ran(config, opts, trunk, entries, done, earlier));
        assert forall|k: int| 0 <= k < done.len() implies #[trigger] ran(
            config,
            opts,
            trunk,
            entries,
            done,
            replies,
            k,
        ) by {
            lemma_ran_stays(config, opts, trunk, entries, done, done, replies, k);
        }
        if let PhaseView::Updating { base_ref, existing_nr, update } = before.phase {
            if let Step::Finished(Ok(revision)) = update.next(opts, reply) {
                let action = BranchActionView {
                    revision,
                    head_branch: update.head_branch,
                    base_branch: base_branch_of(config, base_ref),
                    existing_nr,
                };
                let seen = done.push(action);
                lemma_turn_ran(config, opts, trunk, entries, replies, before, action);
                assert forall|k: int| 0 <= k < seen.len() implies #[trigger] ran(
                    config,
                    opts,
                    trunk,
                    entries,
                    seen,
                    replies,
                    k,
                ) by {
                    if k < done.len() {
                        assert(ran(config, opts, trunk, entries, done, earlier, k));
                        lemma_ran_stays(config, opts, trunk, entries, done, seen, replies, k);
                    }
                }
                lemma_turn_keeps_seen(config, trunk, seen, before.queue);
            }
        }
    }
}

/// The update that ends with a reply was that of the branch whose turn it was.
proof fn lemma_turn_ran(
    config: ConfigView,
    opts: StackedOptionsView,
    trunk: Oid,
    entries: Seq<EntryView>,
    replies: Seq<ReplyView>,
    before: BranchesView,
    action: BranchActionView,
)
    requires
        replies.len() > 0,
        branches_replies(config, opts, trunk, entries, replies),
        branches_after(config, opts, trunk, entries, replies.drop_last()) == Step::<
            BranchesView,
            Seq<BranchActionView>,
            Trail,
        >::Waiting(before),
        before.phase matches PhaseView::Updating { update, .. } && update.head_branch
            == action.head_branch && update.next(opts, replies.last()) == Step::<
            UpdateView,
            RevisionView,
            Trail,
        >::Finished(Ok(action.revision)),
    ensures
        ran(
            config,
            opts,
            trunk,
            entries,
            before.seen.push(action),
            replies,
            before.seen.len() as int,
        ),
{
    let earlier = replies.drop_last();
    lemma_stack_fits(config, opts, trunk, entries, earlier);
    law_stack_runs_updates(config, opts, trunk, entries, earlier);
    let turn = before.seen.len() as int;
    let update = before.phase->Updating_update;
    let first = choose|first: int|
        0 <= first <= earlier.len() && runs_update(
            config,
            opts,
            entries[turn].revision,
            update,
            #[trigger] earlier.skip(first),
        );
    lemma_update_ran(
        config,
        opts,
        trunk,
        entries,
        before.seen,
        action,
        update,
        replies,
        first,
    );
}

/// Whether a ref is what the branch of an entry belongs on top of. A pull request
/// says so itself. Without one, it is the branch of the remote that its parent got,
/// where the parent comes earlier in the stack, and the commit that the stack grows
/// from where it does not.
pub open spec fn goes_on(
    config: ConfigView,
    trunk: Oid,
    entries: Seq<EntryView>,
    actions: Seq<BranchActionView>,
    k: int,
    base_ref: Seq<char>,
) -> bool {
    match entries[k].pull_request {
        Some(pull_request) => base_ref == if pull_request.base.is_master_branch {
            hex(trunk.bytes@)
        } else {
            pull_request.base.local
        },
        None => {
            let id = entries[k].revision.parent_ids[0];
            &&& forall|parent: int|
                0 <= parent < k && (#[trigger] entries[parent]).revision.id == id && (forall|i: int|
                    0 <= i < parent ==> (#[trigger] entries[i]).revision.id != id) ==> base_ref
                    == config.remote_name + "/"@ + actions[parent].head_branch
            &&& (forall|i: int| 0 <= i < k ==> (#[trigger] entries[i]).revision.id != id)
                ==> base_ref == hex(trunk.bytes@)
        },
    }
}

/// A branch goes on top of what it belongs on top of.
proof fn lemma_goes_on(
    config: ConfigView,
    trunk: Oid,
    entries: Seq<EntryView>,
    actions: Seq<BranchActionView>,
    k: int,
)
    requires
        branches_fit(config, trunk, entries, actions),
        0 <= k < actions.len(),
    ensures
        goes_on(
            config,
            trunk,
            entries,
            actions,
            k,
            place(config, trunk, actions.take(k), entries[k]),
        ),
{
    lemma_same_ids(config, trunk, entries, actions);
    if entries[k].pull_request is None {
        let id = entries[k].revision.parent_ids[0];
        let base_ref = place(config, trunk, actions.take(k), entries[k]);
        assert forall|parent: int|
            0 <= parent < k && (#[trigger] entries[parent]).revision.id == id && (forall|i: int|
                0 <= i < parent ==> (#[trigger] entries[i]).revision.id != id) implies base_ref
            == config.remote_name + "/"@ + actions[parent].head_branch by {
            lemma_parent_is_found(entries, actions, parent, k);
        }
        if forall|i: int| 0 <= i < k ==> (#[trigger] entries[i]).revision.id != id {
            lemma_no_parent_is_found(entries, actions, k);
        }
    }
}

/// The branch that each revision came to is what came of an update of that revision
/// into that branch, on top of what it belongs on top of. So the revision that goes
/// with it is the one that its update ended with, and names the commit that was
/// pushed for it.
pub proof fn law_every_branch_was_updated(
    config: ConfigView,
    opts: StackedOptionsView,
    trunk: Oid,
    entries: Seq<EntryView>,
    replies: Seq<ReplyView>,
    k: int,
)
    requires
        branches_replies(config, opts, trunk, entries, replies),
        0 <= k < entries.len(),
    ensures
        branches_after(config, opts, trunk, entries, replies) matches Step::Finished(Ok(actions))
            ==> exists|base_ref: Seq<char>, first: int, last: int|
            {
                &&& 0 <= first <= last <= replies.len()
                &&& goes_on(config, trunk, entries, actions, k, base_ref)
                &&& #[trigger] updated_by(
                    config,
                    opts,
                    entries[k].revision,
                    base_ref,
                    actions[k],
                    replies.subrange(first, last),
                )
            },
{
    lemma_stack_fits(config, opts, trunk, entries, replies);
    lemma_all_ran(config, opts, trunk, entries, replies);
    if let Step::Finished(Ok(actions)) = branches_after(config, opts, trunk, entries, replies) {
        assert(ran(config, opts, trunk, entries, actions, replies, k));
        reveal(ran);
        let (first, last) = choose|first: int, last: int| #[trigger]
            ran_between(config, opts, trunk, entries, actions, replies, k, first, last);
        let base_ref = place(config, trunk, actions.take(k), entries[k]);
        lemma_goes_on(config, trunk, entries, actions, k);
        assert(updated_by(
            config,
            opts,
            entries[k].revision,
            base_ref,
            actions[k],
            replies.subrange(first, last),
        ));
    }
}

/// A stack starts where a row of no replies says.
pub proof fn law_stack_starts_with_its_entries(
    config: Config,
    opts: StackedOptionsView,
    entries: Vec<Entry>,
    trunk: Oid,
    step: Step<Branches, Vec<BranchAction>, Error>,
)
    requires
        call_ensures(start_revs, (&config, entries, trunk), step),
    ensures
        branches_step_view(step) == branches_after(
            config@,
            opts,
            trunk,
            views(entries@),
            Seq::empty(),
        ),
{
}

/// A stack that is given its replies one by one stands where the row of them says.
pub proof fn law_stack_follows_its_replies(
    config: Config,
    opts: StackedOptions,
    trunk: Oid,
    entries: Seq<EntryView>,
    replies: Seq<ReplyView>,
    branches: Branches,
    action: Action,
    reply: Reply,
    step: Step<Branches, Vec<BranchAction>, Error>,
)
    requires
        branches_after(config@, opts@, trunk, entries, replies) == Step::<
            BranchesView,
            Seq<BranchActionView>,
            Trail,
        >::Waiting(branches@),
        call_ensures(Branches::request, (&branches, &config), action),
        call_ensures(handle_revs, (&config, &opts, branches, reply), step),
    ensures
        action@ == branches_after(config@, opts@, trunk, entries, replies)->Waiting_0.request(
            config@,
        ),
        branches_step_view(step) == branches_after(
            config@,
            opts@,
            trunk,
            entries,
            replies.push(reply@),
        ),
{
    assert(replies.push(reply@).drop_last() =~= replies);
}

} // verus!
