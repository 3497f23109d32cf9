//! What holds of every update of a branch, whatever it is told on the way.

use vstd::prelude::*;

use crate::config::{Config, ConfigView};
use crate::error::Error;
use crate::jj::{Revision, RevisionView};
use crate::message::MessageView;
use crate::oid::{hex, Oid};
use crate::stacked::exchange::{Action, ActionView, Reply, ReplyView};
use crate::stacked::update::{do_stacked, parents, Plan, StageView, Update, UpdateView};
use crate::stacked::{step_view, StackedOptions, StackedOptionsView, Step, Trail};

verus! {

/// Where an update stands after a row of replies.
pub open spec fn update_after(
    opts: StackedOptionsView,
    start: UpdateView,
    replies: Seq<ReplyView>,
) -> Step<UpdateView, RevisionView, Trail>
    decreases replies.len(),
{
    if replies.len() == 0 {
        Step::Waiting(start)
    } else {
        match update_after(opts, start, replies.drop_last()) {
            Step::Waiting(update) => update.next(opts, replies.last()),
            finished => finished,
        }
    }
}

/// Whether a row of replies is one that an update can be given: each is of the
/// kind that was asked for, and none comes after the end.
pub open spec fn update_replies(
    config: ConfigView,
    opts: StackedOptionsView,
    start: UpdateView,
    replies: Seq<ReplyView>,
) -> bool
    decreases replies.len(),
{
    replies.len() > 0 ==> {
        &&& update_replies(config, opts, start, replies.drop_last())
        &&& match update_after(opts, start, replies.drop_last()) {
            Step::Waiting(update) => update.request(config).admits(replies.last()),
            _ => false,
        }
    }
}

/// The base that an update was told of.
pub open spec fn told_base(replies: Seq<ReplyView>) -> Oid {
    replies[0]->Id_0
}

/// The head of the branch that an update was told of. A branch that is not there
/// yet starts at the base.
pub open spec fn told_head(replies: Seq<ReplyView>) -> Oid {
    match replies[1] {
        ReplyView::Id(head) => head,
        _ => told_base(replies),
    }
}

/// What an update was told of a branch.
pub open spec fn told_plan(replies: Seq<ReplyView>) -> Plan {
    Plan {
        base: told_base(replies),
        head: told_head(replies),
        target: replies[3]->Id_0,
        tree: replies[4]->Id_0,
        rebase: replies[5]->Id_0 != told_base(replies),
    }
}

/// Whether the branch that an update was told of holds what it should: the tree
/// of the revision, with the base in it.
pub open spec fn told_unchanged(replies: Seq<ReplyView>) -> bool {
    replies[4]->Id_0 == replies[2]->Id_0 && replies[5]->Id_0 == told_base(replies)
}

/// How many replies an update is given before it asks for a commit: those on the
/// branch, and one more for the text of the commit where that is not known yet.
spec fn before_commit(
    opts: StackedOptionsView,
    start: UpdateView,
    replies: Seq<ReplyView>,
) -> int {
    if told_head(replies) == told_base(replies) && start.revision.message.title is Some {
        7
    } else if opts.message is Some {
        6
    } else {
        7
    }
}

/// Whether a text is what the commit of an update is to say.
spec fn told_message(
    opts: StackedOptionsView,
    start: UpdateView,
    replies: Seq<ReplyView>,
    message: Seq<char>,
) -> bool {
    match (start.revision.message.title, opts.message) {
        (Some(title), _) if told_head(replies) == told_base(replies) => replies[6] is Text
            && message == title + "\n\n"@ + replies[6]->Text_0,
        (_, Some(given)) => message == given,
        _ => replies[6] == ReplyView::Text(message),
    }
}

/// Whether a revision is the one that an update started with, with a commit for
/// its last one.
spec fn only_last_commit(start: UpdateView, revision: RevisionView, commit: Oid) -> bool {
    revision == RevisionView {
        message: MessageView {
            last_commit: Some(hex(commit.bytes@)),
            ..start.revision.message
        },
        ..start.revision
    }
}

/// What an update has been told by the time it reaches a stage.
spec fn told(
    opts: StackedOptionsView,
    start: UpdateView,
    update: UpdateView,
    replies: Seq<ReplyView>,
) -> bool {
    let count = replies.len();
    let commit = before_commit(opts, start, replies);
    &&& update.base_ref == start.base_ref
    &&& update.head_branch == start.head_branch
    &&& count >= 1 ==> replies[0] is Id
    &&& count >= 2 ==> replies[1] is Id || replies[1] is Failed
    &&& count >= 3 ==> replies[2] is Id
    &&& count >= 4 ==> replies[3] is Id
    &&& count >= 5 ==> replies[4] is Id
    &&& count >= 6 ==> replies[5] is Id
    &&& match update.stage {
        StageView::Base => count == 0 && update.revision == start.revision,
        StageView::Head { base } => {
            &&& count == 1
            &&& base == told_base(replies)
            &&& update.revision == start.revision
        },
        StageView::HeadTree { base, head } => {
            &&& count == 2
            &&& base == told_base(replies)
            &&& head == told_head(replies)
            &&& update.revision == start.revision
        },
        StageView::Target { base, head, head_tree } => {
            &&& count == 3
            &&& base == told_base(replies)
            &&& head == told_head(replies)
            &&& replies[2] == ReplyView::Id(head_tree)
            &&& update.revision == start.revision
        },
        StageView::TargetTree { base, head, head_tree, target } => {
            &&& count == 4
            &&& base == told_base(replies)
            &&& head == told_head(replies)
            &&& replies[2] == ReplyView::Id(head_tree)
            &&& replies[3] == ReplyView::Id(target)
            &&& update.revision == start.revision
        },
        StageView::MergeBase { base, head, head_tree, target, target_tree } => {
            &&& count == 5
            &&& base == told_base(replies)
            &&& head == told_head(replies)
            &&& replies[2] == ReplyView::Id(head_tree)
            &&& replies[3] == ReplyView::Id(target)
            &&& replies[4] == ReplyView::Id(target_tree)
            &&& update.revision == start.revision
        },
        StageView::UnchangedUrl { number } => {
            &&& count == 6
            &&& told_unchanged(replies)
            &&& start.revision.pull_request_number == Some(number)
            &&& update.revision == start.revision
        },
        StageView::Unchanged { text } => {
            &&& told_unchanged(replies)
            &&& match start.revision.pull_request_number {
                Some(_) => count == 7 && replies[6] is Text && text
                    == "No update necessary for #"@ + replies[6]->Text_0,
                None => count == 6 && text == "No update necessary"@,
            }
            &&& update.revision == start.revision
        },
        StageView::Body { plan, title } => {
            &&& count == 6
            &&& !told_unchanged(replies)
            &&& plan == told_plan(replies)
            &&& told_head(replies) == told_base(replies)
            &&& start.revision.message.title == Some(title)
            &&& update.revision == start.revision
        },
        StageView::Prompt { plan } => {
            &&& count == 6
            &&& !told_unchanged(replies)
            &&& plan == told_plan(replies)
            &&& told_head(replies) == told_base(replies) ==> start.revision.message.title is None
            &&& opts.message is None
            &&& update.revision == start.revision
        },
        StageView::Commit { plan, message } => {
            &&& count == commit
            &&& !told_unchanged(replies)
            &&& plan == told_plan(replies)
            &&& told_message(opts, start, replies, message)
            &&& update.revision == start.revision
        },
        StageView::Push { plan, commit: created } => {
            &&& count == commit + 1
            &&& !told_unchanged(replies)
            &&& plan == told_plan(replies)
            &&& replies[commit] == ReplyView::Id(created)
            &&& only_last_commit(start, update.revision, created)
        },
        StageView::UpdatedUrl { plan, number } => {
            &&& count == commit + 2
            &&& !told_unchanged(replies)
            &&& plan == told_plan(replies)
            &&& start.revision.pull_request_number == Some(number)
            &&& replies[commit] is Id
            &&& only_last_commit(start, update.revision, replies[commit]->Id_0)
        },
        StageView::Updated { text } => {
            &&& count == commit + 3
            &&& !told_unchanged(replies)
            &&& start.revision.pull_request_number is Some
            &&& replies[commit] is Id
            &&& replies[commit + 2] is Text
            &&& text == (if told_plan(replies).rebase {
                "Rebased "@
            } else {
                "Updated "@
            }) + replies[commit + 2]->Text_0
            &&& only_last_commit(start, update.revision, replies[commit]->Id_0)
        },
    }
}

/// An update knows what it was told.
proof fn lemma_told(
    config: ConfigView,
    opts: StackedOptionsView,
    start: UpdateView,
    replies: Seq<ReplyView>,
)
    requires
        start.stage is Base,
        update_replies(config, opts, start, replies),
    ensures
        update_after(opts, start, replies) matches Step::Waiting(update) ==> told(
            opts,
            start,
            update,
            replies,
        ),
    decreases replies.len(),
{
    if replies.len() > 0 {
        let earlier = replies.drop_last();
        lemma_told(config, opts, start, earlier);
        let count = earlier.len();
        assert(forall|i: int| 0 <= i < count ==> earlier[i] == replies[i]);
        assert(count > 0 ==> earlier.last() == replies[count - 1]);
    }
}

/// A branch that holds what it should is left alone: neither a commit nor a push
/// is ever asked for, and the revision comes out as it went in.
pub proof fn law_unchanged_branch_is_left_alone(
    config: ConfigView,
    opts: StackedOptionsView,
    revision: RevisionView,
    base_ref: Seq<char>,
    head_branch: Seq<char>,
    replies: Seq<ReplyView>,
)
    requires
        update_replies(config, opts, UpdateView::start(revision, base_ref, head_branch), replies),
        replies.len() >= 6,
        told_unchanged(replies),
    ensures
        match update_after(opts, UpdateView::start(revision, base_ref, head_branch), replies) {
            Step::Waiting(update) => {
                &&& !(update.request(config) is CreateCommit)
                &&& !(update.request(config) is Push)
            },
            Step::Finished(Ok(updated)) => updated == revision,
            Step::Finished(Err(_)) => true,
        },
{
    let start = UpdateView::start(revision, base_ref, head_branch);
    lemma_told(config, opts, start, replies);
    lemma_told(config, opts, start, replies.drop_last());
    assert(forall|i: int|
        0 <= i < replies.len() - 1 ==> replies.drop_last()[i] == #[trigger] replies[i]);
}

/// An update leaves nothing to do for the next one. Where the first pushed its
/// commit, and the second finds that commit at the head of the branch, the tree of
/// the revision as it was, and the same base in the branch, the second asks for
/// neither a commit nor a push, and leaves the revision as it is. A commit has the
/// tree that it was created with.
pub proof fn law_second_update_has_nothing_to_do(
    config: ConfigView,
    opts: StackedOptionsView,
    revision: RevisionView,
    base_ref: Seq<char>,
    head_branch: Seq<char>,
    replies: Seq<ReplyView>,
    next_opts: StackedOptionsView,
    next_revision: RevisionView,
    next_base_ref: Seq<char>,
    next_replies: Seq<ReplyView>,
    tree_of: spec_fn(Oid) -> Oid,
)
    requires
        update_replies(config, opts, UpdateView::start(revision, base_ref, head_branch), replies),
        update_after(
            opts,
            UpdateView::start(revision, base_ref, head_branch),
            replies,
        ) matches Step::Waiting(update) && update.request(config) is Push,
        update_after(
            opts,
            UpdateView::start(revision, base_ref, head_branch),
            replies.drop_last(),
        ) matches Step::Waiting(before) && (before.request(config) matches ActionView::CreateCommit {
            tree,
            ..
        } && tree_of(replies.last()->Id_0) == tree),
        update_replies(
            config,
            next_opts,
            UpdateView::start(next_revision, next_base_ref, head_branch),
            next_replies,
        ),
        next_replies.len() >= 6,
        next_replies[0] == replies[0],
        next_replies[1] == replies.last(),
        next_replies[2] == ReplyView::Id(tree_of(replies.last()->Id_0)),
        next_replies[4] == replies[4],
        next_replies[5] == replies[0],
    ensures
        match update_after(
            next_opts,
            UpdateView::start(next_revision, next_base_ref, head_branch),
            next_replies,
        ) {
            Step::Waiting(update) => {
                &&& !(update.request(config) is CreateCommit)
                &&& !(update.request(config) is Push)
            },
            Step::Finished(Ok(updated)) => updated == next_revision,
            Step::Finished(Err(_)) => true,
        },
{
    let start = UpdateView::start(revision, base_ref, head_branch);
    let earlier = replies.drop_last();
    lemma_told(config, opts, start, replies);
    lemma_told(config, opts, start, earlier);
    assert(forall|i: int| 0 <= i < earlier.len() ==> earlier[i] == #[trigger] replies[i]);
    assert(told_unchanged(next_replies));
    law_unchanged_branch_is_left_alone(
        config,
        next_opts,
        next_revision,
        next_base_ref,
        head_branch,
        next_replies,
    );
}

/// A commit is asked for only where the branch does not hold what it should. It
/// goes on top of the head of the branch, and on top of the base too exactly
/// where the base is not in the branch; it holds the tree of the revision, and
/// its text says where it comes from.
pub proof fn law_commit_goes_on_head(
    config: ConfigView,
    opts: StackedOptionsView,
    revision: RevisionView,
    base_ref: Seq<char>,
    head_branch: Seq<char>,
    replies: Seq<ReplyView>,
)
    requires
        update_replies(config, opts, UpdateView::start(revision, base_ref, head_branch), replies),
    ensures
        update_after(
            opts,
            UpdateView::start(revision, base_ref, head_branch),
            replies,
        ) matches Step::Waiting(update) ==> (update.request(
            config,
        ) matches ActionView::CreateCommit { original, text, tree, parents: asked } ==> {
            &&& replies.len() >= 6
            &&& !told_unchanged(replies)
            &&& asked == (if replies[5] == ReplyView::Id(told_base(replies)) {
                seq![told_head(replies)]
            } else {
                seq![told_head(replies), told_base(replies)]
            })
            &&& asked.contains(told_base(replies)) || replies[5] == ReplyView::Id(
                told_base(replies),
            )
            &&& original == replies[3]->Id_0
            &&& tree == replies[4]->Id_0
            &&& "\n\nCreated using jj-spr"@.is_suffix_of(text)
        }),
{
    let start = UpdateView::start(revision, base_ref, head_branch);
    lemma_told(config, opts, start, replies);
    if let Step::Waiting(update) = update_after(opts, start, replies) {
        if let StageView::Commit { plan, message } = update.stage {
            let trailer = "\n\nCreated using jj-spr"@;
            let text = message + trailer;
            assert(trailer =~= text.subrange(text.len() - trailer.len(), text.len() as int));
            if plan.rebase {
                assert(parents(plan)[1] == told_base(replies));
            }
        }
    }
}

/// A push is asked for only once a commit was created for the branch, and puts
/// that commit on the branch.
pub proof fn law_push_follows_commit(
    config: ConfigView,
    opts: StackedOptionsView,
    revision: RevisionView,
    base_ref: Seq<char>,
    head_branch: Seq<char>,
    replies: Seq<ReplyView>,
)
    requires
        update_replies(config, opts, UpdateView::start(revision, base_ref, head_branch), replies),
    ensures
        update_after(
            opts,
            UpdateView::start(revision, base_ref, head_branch),
            replies,
        ) matches Step::Waiting(update) ==> (update.request(config) matches ActionView::Push {
            args,
        } ==> {
            &&& replies.len() >= 7
            &&& replies.last() matches ReplyView::Id(commit)
            &&& args == seq![
                "push"@,
                "--atomic"@,
                "--no-verify"@,
                "--"@,
                config.remote_name,
                hex(commit.bytes@) + ":refs/heads/"@ + head_branch,
            ]
            &&& update_after(
                opts,
                UpdateView::start(revision, base_ref, head_branch),
                replies.drop_last(),
            ) matches Step::Waiting(before)
            &&& before.request(config) is CreateCommit
        }),
{
    let start = UpdateView::start(revision, base_ref, head_branch);
    lemma_told(config, opts, start, replies);
}

/// What an update makes of a revision: nothing, or the name of the commit that
/// was pushed for it in place of the last commit. Its id, its parents, the number
/// of its pull request, and the title, the pull request and the other sections of
/// its message stay as they were.
pub proof fn law_update_keeps_revision(
    config: ConfigView,
    opts: StackedOptionsView,
    revision: RevisionView,
    base_ref: Seq<char>,
    head_branch: Seq<char>,
    replies: Seq<ReplyView>,
)
    requires
        update_replies(config, opts, UpdateView::start(revision, base_ref, head_branch), replies),
    ensures
        update_after(
            opts,
            UpdateView::start(revision, base_ref, head_branch),
            replies,
        ) matches Step::Finished(Ok(updated)) ==> {
            &&& replies.len() >= 6
            &&& updated.id == revision.id
            &&& updated.parent_ids == revision.parent_ids
            &&& updated.pull_request_number == revision.pull_request_number
            &&& updated.message.title == revision.message.title
            &&& updated.message.pull_request == revision.message.pull_request
            &&& updated.message.others == revision.message.others
            &&& if told_unchanged(replies) {
                updated.message.last_commit == revision.message.last_commit
            } else {
                exists|i: int|
                    6 <= i < replies.len() && (#[trigger] replies[i] matches ReplyView::Id(commit)
                        && updated.message.last_commit == Some(hex(commit.bytes@)))
            }
        },
{
    let start = UpdateView::start(revision, base_ref, head_branch);
    if replies.len() > 0 {
        let earlier = replies.drop_last();
        lemma_told(config, opts, start, earlier);
        assert(forall|i: int| 0 <= i < earlier.len() ==> earlier[i] == #[trigger] replies[i]);
        if let Step::Waiting(update) = update_after(opts, start, earlier) {
            match update.stage {
                StageView::Push { .. } => {
                    assert(replies[before_commit(opts, start, replies)] is Id);
                },
                StageView::Updated { .. } => {
                    assert(replies[before_commit(opts, start, replies)] is Id);
                },
                _ => {},
            }
        }
    }
}

/// First an update looks up, in this order: the base, the head of the branch on
/// the configured remote, the tree of the head, the commit of the revision, the
/// tree of that commit, and the merge base of head and base. A branch that is not
/// there counts as being at the base.
pub proof fn law_update_looks_up_the_branch(
    config: ConfigView,
    opts: StackedOptionsView,
    revision: RevisionView,
    base_ref: Seq<char>,
    head_branch: Seq<char>,
    replies: Seq<ReplyView>,
)
    requires
        update_replies(config, opts, UpdateView::start(revision, base_ref, head_branch), replies),
        replies.len() < 6,
        replies.len() > 0 && replies.len() != 2 ==> !(replies.last() is Failed),
    ensures
        update_after(
            opts,
            UpdateView::start(revision, base_ref, head_branch),
            replies,
        ) matches Step::Waiting(update) && update.request(config) == {
            let base = replies[0]->Id_0;
            let head = match replies[1] {
                ReplyView::Id(found) => found,
                _ => base,
            };
            if replies.len() == 0 {
                ActionView::ResolveRef { name: base_ref }
            } else if replies.len() == 1 {
                ActionView::ResolveRef { name: config.remote_name + "/"@ + head_branch }
            } else if replies.len() == 2 {
                ActionView::TreeOf { commit: head }
            } else if replies.len() == 3 {
                ActionView::ResolveRevision { id: revision.id }
            } else if replies.len() == 4 {
                ActionView::TreeOf { commit: replies[3]->Id_0 }
            } else {
                ActionView::MergeBase { one: head, two: base }
            }
        },
{
    let start = UpdateView::start(revision, base_ref, head_branch);
    lemma_told(config, opts, start, replies);
    if replies.len() > 0 {
        let earlier = replies.drop_last();
        lemma_told(config, opts, start, earlier);
        assert(forall|i: int| 0 <= i < earlier.len() ==> earlier[i] == #[trigger] replies[i]);
    }
}

/// Where the branch holds the tree of the revision and has the base in it, the user
/// is told so, with the address of the pull request if there is one. Then the
/// update is over, and the revision is as it was.
pub proof fn law_nothing_to_do_is_said(
    config: ConfigView,
    opts: StackedOptionsView,
    revision: RevisionView,
    base_ref: Seq<char>,
    head_branch: Seq<char>,
    replies: Seq<ReplyView>,
)
    requires
        update_replies(config, opts, UpdateView::start(revision, base_ref, head_branch), replies),
        replies.len() >= 6,
        !(replies.last() is Failed),
        replies[4]->Id_0 == replies[2]->Id_0,
        replies[5]->Id_0 == replies[0]->Id_0,
    ensures
        match (
            revision.pull_request_number,
            update_after(opts, UpdateView::start(revision, base_ref, head_branch), replies),
        ) {
            (Some(number), Step::Waiting(update)) => {
                ||| replies.len() == 6 && update.request(config) == (ActionView::PullRequestUrl {
                    number,
                })
                ||| replies.len() == 7 && update.request(config) == (ActionView::Output {
                    icon: "✅"@,
                    text: "No update necessary for #"@ + replies[6]->Text_0,
                })
            },
            (Some(_), Step::Finished(outcome)) => replies.len() == 8 && outcome == Ok::<
                RevisionView,
                Trail,
            >(revision),
            (None, Step::Waiting(update)) => replies.len() == 6 && update.request(config) == (
            ActionView::Output { icon: "✅"@, text: "No update necessary"@ }),
            (None, Step::Finished(outcome)) => replies.len() == 7 && outcome == Ok::<
                RevisionView,
                Trail,
            >(revision),
        },
{
    let start = UpdateView::start(revision, base_ref, head_branch);
    lemma_told(config, opts, start, replies);
    if replies.len() > 0 {
        let earlier = replies.drop_last();
        lemma_told(config, opts, start, earlier);
        assert(forall|i: int| 0 <= i < earlier.len() ==> earlier[i] == #[trigger] replies[i]);
    }
}

/// What the commit of an update says. A branch at its base gets the title of the
/// revision, if it has one, and the body of its pull request. Any other gets the
/// message that was given on the command line, or else what the user types when
/// asked: nobody asks for a body then. A line at the end says where the commit
/// comes from.
///
/// The commit is derived from that of the revision and holds its tree. It goes on
/// top of the head of the branch, and of the base too exactly where the merge base
/// is another commit.
pub proof fn law_commit_says_what_it_should(
    config: ConfigView,
    opts: StackedOptionsView,
    revision: RevisionView,
    base_ref: Seq<char>,
    head_branch: Seq<char>,
    replies: Seq<ReplyView>,
)
    requires
        update_replies(config, opts, UpdateView::start(revision, base_ref, head_branch), replies),
        replies.len() >= 6,
        !(replies.last() is Failed),
        replies[4]->Id_0 != replies[2]->Id_0 || replies[5]->Id_0 != replies[0]->Id_0,
    ensures
        ({
            let base = replies[0]->Id_0;
            let head = match replies[1] {
                ReplyView::Id(found) => found,
                _ => base,
            };
            let asked = update_after(
                opts,
                UpdateView::start(revision, base_ref, head_branch),
                replies,
            )->Waiting_0.request(config);
            let waits = update_after(
                opts,
                UpdateView::start(revision, base_ref, head_branch),
                replies,
            ) is Waiting;
            let commit = |message: Seq<char>|
                ActionView::CreateCommit {
                    original: replies[3]->Id_0,
                    text: message + "\n\nCreated using jj-spr"@,
                    tree: replies[4]->Id_0,
                    parents: if replies[5]->Id_0 == base {
                        seq![head]
                    } else {
                        seq![head, base]
                    },
                };
            match (revision.message.title, opts.message) {
                (Some(title), _) if head == base => {
                    &&& replies.len() == 6 ==> waits && asked == (ActionView::GithubBody {
                        message: revision.message,
                    })
                    &&& replies.len() == 7 ==> waits && replies[6] is Text && asked == commit(
                        title + "\n\n"@ + replies[6]->Text_0,
                    )
                },
                (_, Some(given)) => replies.len() == 6 ==> waits && asked == commit(given),
                _ => {
                    &&& replies.len() == 6 ==> waits && asked == ActionView::AskMessage
                    &&& replies.len() == 7 ==> waits && replies[6] is Text && asked == commit(
                        replies[6]->Text_0,
                    )
                },
            }
        }),
{
    let start = UpdateView::start(revision, base_ref, head_branch);
    lemma_told(config, opts, start, replies);
    if replies.len() > 0 {
        let earlier = replies.drop_last();
        lemma_told(config, opts, start, earlier);
        assert(forall|i: int| 0 <= i < earlier.len() ==> earlier[i] == #[trigger] replies[i]);
    }
    if let Step::Waiting(update) = update_after(opts, start, replies) {
        if let StageView::Commit { plan, .. } = update.stage {
            assert(parents(plan) == if replies[5]->Id_0 == replies[0]->Id_0 {
                seq![told_head(replies)]
            } else {
                seq![told_head(replies), told_base(replies)]
            });
        }
    }
}

/// Once its commit is created, an update pushes it to the branch on the configured
/// remote. Where the revision has a pull request, the user is then told that this
/// was updated, or rebased where the base was merged in. Then the update is over:
/// the revision says in its message which commit was pushed last, and is otherwise
/// as it was.
pub proof fn law_commit_is_pushed_and_recorded(
    config: ConfigView,
    opts: StackedOptionsView,
    revision: RevisionView,
    base_ref: Seq<char>,
    head_branch: Seq<char>,
    replies: Seq<ReplyView>,
)
    requires
        update_replies(config, opts, UpdateView::start(revision, base_ref, head_branch), replies),
        replies.len() >= 7,
        !(replies.last() is Failed),
        replies[4]->Id_0 != replies[2]->Id_0 || replies[5]->Id_0 != replies[0]->Id_0,
    ensures
        ({
            let base = replies[0]->Id_0;
            let head = match replies[1] {
                ReplyView::Id(found) => found,
                _ => base,
            };
            // Where the reply is that tells of the commit.
            let at: int = if head == base && revision.message.title is Some {
                7
            } else if opts.message is Some {
                6
            } else {
                7
            };
            let name = hex(replies[at]->Id_0.bytes@);
            replies.len() > at ==> replies[at] is Id && match update_after(
                opts,
                UpdateView::start(revision, base_ref, head_branch),
                replies,
            ) {
                Step::Waiting(update) => {
                    ||| replies.len() == at + 1 && update.request(config) == (ActionView::Push {
                        args: seq![
                            "push"@,
                            "--atomic"@,
                            "--no-verify"@,
                            "--"@,
                            config.remote_name,
                            name + ":refs/heads/"@ + head_branch,
                        ],
                    })
                    ||| replies.len() == at + 2 && revision.pull_request_number is Some
                        && update.request(config) == (ActionView::PullRequestUrl {
                        number: revision.pull_request_number->0,
                    })
                    ||| replies.len() == at + 3 && revision.pull_request_number is Some
                        && replies[at + 2] is Text && update.request(config) == (
                    ActionView::Output {
                        icon: "✅"@,
                        text: if replies[5]->Id_0 == base {
                            "Updated "@ + replies[at + 2]->Text_0
                        } else {
                            "Rebased "@ + replies[at + 2]->Text_0
                        },
                    })
                },
                Step::Finished(Ok(updated)) => {
                    &&& replies.len() == (if revision.pull_request_number is Some {
                        at + 4
                    } else {
                        at + 2
                    })
                    &&& updated.id == revision.id
                    &&& updated.parent_ids == revision.parent_ids
                    &&& updated.pull_request_number == revision.pull_request_number
                    &&& updated.message.title == revision.message.title
                    &&& updated.message.pull_request == revision.message.pull_request
                    &&& updated.message.others == revision.message.others
                    &&& updated.message.last_commit == Some(name)
                },
                Step::Finished(Err(_)) => false,
            }
        }),
{
    let start = UpdateView::start(revision, base_ref, head_branch);
    lemma_told(config, opts, start, replies);
    if replies.len() > 0 {
        let earlier = replies.drop_last();
        lemma_told(config, opts, start, earlier);
        assert(forall|i: int| 0 <= i < earlier.len() ==> earlier[i] == #[trigger] replies[i]);
    }
}

/// An update fails exactly where something that it asked for failed, but for the
/// look at a branch that is not there yet. What failed is said first, then what was
/// being tried; of a push only the latter is said.
pub proof fn law_update_says_why_it_failed(
    config: ConfigView,
    opts: StackedOptionsView,
    revision: RevisionView,
    base_ref: Seq<char>,
    head_branch: Seq<char>,
    replies: Seq<ReplyView>,
)
    requires
        update_replies(config, opts, UpdateView::start(revision, base_ref, head_branch), replies),
        replies.len() > 0,
    ensures
        ({
            let before = update_after(
                opts,
                UpdateView::start(revision, base_ref, head_branch),
                replies.drop_last(),
            );
            let after = update_after(
                opts,
                UpdateView::start(revision, base_ref, head_branch),
                replies,
            );
            match replies.last() {
                ReplyView::Failed(cause) if replies.len() != 2 => before is Waiting && after
                    == Step::<UpdateView, RevisionView, Trail>::Finished(
                    Err(
                        match before->Waiting_0.request(config) {
                            ActionView::TreeOf { .. } => if replies.len() == 3 {
                                cause.push("tree_oid_for_commit"@)
                            } else {
                                cause.push("resolve tree"@)
                            },
                            ActionView::ResolveRevision { .. } => cause.push("resolve revision"@),
                            ActionView::CreateCommit { .. } => cause.push("derive commit"@),
                            ActionView::Push { .. } => if cause.len() == 0 {
                                seq!["git push failed"@]
                            } else {
                                cause.update(cause.len() - 1, "git push failed"@)
                            },
                            _ => cause,
                        },
                    ),
                ),
                _ => !(after matches Step::Finished(Err(_))),
            }
        }),
{
    let start = UpdateView::start(revision, base_ref, head_branch);
    lemma_told(config, opts, start, replies);
    if replies.len() > 0 {
        let earlier = replies.drop_last();
        lemma_told(config, opts, start, earlier);
        assert(forall|i: int| 0 <= i < earlier.len() ==> earlier[i] == #[trigger] replies[i]);
    }
    if let ReplyView::Failed(cause) = replies.last() {
        if cause.len() > 0 {
            assert(cause.drop_last().push("git push failed"@) =~= cause.update(
                cause.len() - 1,
                "git push failed"@,
            ));
        }
    }
}

/// Whether one commit can be reached from another by way of parents, in at most
/// so many steps.
pub open spec fn reaches(
    parents_of: spec_fn(Oid) -> Seq<Oid>,
    from: Oid,
    to: Oid,
    steps: nat,
) -> bool
    decreases steps,
{
    ||| from == to
    ||| steps > 0 && exists|i: int|
        0 <= i < parents_of(from).len() && reaches(
            parents_of,
            #[trigger] parents_of(from)[i],
            to,
            (steps - 1) as nat,
        )
}

/// What is pushed to a branch is based on what the branch held before and on the
/// base: both can be reached from the new commit. The commits of the repository
/// have the parents that they were created with, and the merge base that was
/// found can be reached from the head.
pub proof fn law_pushed_branch_is_based_on_head_and_base(
    config: ConfigView,
    opts: StackedOptionsView,
    revision: RevisionView,
    base_ref: Seq<char>,
    head_branch: Seq<char>,
    replies: Seq<ReplyView>,
    parents_of: spec_fn(Oid) -> Seq<Oid>,
    steps: nat,
)
    requires
        update_replies(config, opts, UpdateView::start(revision, base_ref, head_branch), replies),
        update_after(
            opts,
            UpdateView::start(revision, base_ref, head_branch),
            replies,
        ) matches Step::Waiting(update) && update.request(config) is Push,
        update_after(
            opts,
            UpdateView::start(revision, base_ref, head_branch),
            replies.drop_last(),
        ) matches Step::Waiting(before) && (before.request(config) matches ActionView::CreateCommit {
            parents: asked,
            ..
        } && parents_of(replies.last()->Id_0) == asked),
        reaches(parents_of, told_head(replies), replies[5]->Id_0, steps),
    ensures
        reaches(parents_of, replies.last()->Id_0, told_head(replies), 1),
        reaches(parents_of, replies.last()->Id_0, told_base(replies), steps + 1),
{
    let start = UpdateView::start(revision, base_ref, head_branch);
    let earlier = replies.drop_last();
    let commit = replies.last()->Id_0;
    lemma_told(config, opts, start, replies);
    lemma_told(config, opts, start, earlier);
    assert(forall|i: int| 0 <= i < earlier.len() ==> earlier[i] == #[trigger] replies[i]);
    let plan = told_plan(replies);
    assert(parents_of(commit) == parents(plan));
    assert(parents_of(commit)[0] == told_head(replies));
    assert(reaches(parents_of, parents_of(commit)[0], told_head(replies), 0));
    if plan.rebase {
        assert(parents_of(commit)[1] == told_base(replies));
        assert(reaches(parents_of, parents_of(commit)[1], told_base(replies), steps));
    } else {
        assert(reaches(parents_of, parents_of(commit)[0], told_base(replies), steps));
    }
}

/// A branch that is not there yet starts at the base: its first commit has the
/// base for its only parent, where the base is its own merge base.
pub proof fn law_new_branch_starts_at_base(
    config: ConfigView,
    opts: StackedOptionsView,
    revision: RevisionView,
    base_ref: Seq<char>,
    head_branch: Seq<char>,
    replies: Seq<ReplyView>,
)
    requires
        update_replies(config, opts, UpdateView::start(revision, base_ref, head_branch), replies),
        replies.len() >= 6,
        replies[1] is Failed,
        replies[5] == replies[0],
    ensures
        update_after(
            opts,
            UpdateView::start(revision, base_ref, head_branch),
            replies,
        ) matches Step::Waiting(update) ==> (update.request(
            config,
        ) matches ActionView::CreateCommit { parents: asked, .. } ==> asked == seq![
            told_base(replies),
        ]),
{
    lemma_told(config, opts, UpdateView::start(revision, base_ref, head_branch), replies);
}

/// How many replies an update can still be given.
pub open spec fn update_rank(update: UpdateView) -> nat {
    match update.stage {
        StageView::Base => 11,
        StageView::Head { .. } => 10,
        StageView::HeadTree { .. } => 9,
        StageView::Target { .. } => 8,
        StageView::TargetTree { .. } => 7,
        StageView::MergeBase { .. } => 6,
        StageView::Body { .. } => 5,
        StageView::Prompt { .. } => 5,
        StageView::Commit { .. } => 4,
        StageView::Push { .. } => 3,
        StageView::UpdatedUrl { .. } => 2,
        StageView::Updated { .. } => 1,
        StageView::UnchangedUrl { .. } => 2,
        StageView::Unchanged { .. } => 1,
    }
}

/// Every update ends: each reply brings it nearer to its end, which comes with
/// the eleventh at the latest.
pub proof fn law_update_ends(
    config: ConfigView,
    opts: StackedOptionsView,
    update: UpdateView,
    reply: ReplyView,
)
    requires
        update.request(config).admits(reply),
    ensures
        1 <= update_rank(update) <= 11,
        update.next(opts, reply) matches Step::Waiting(later) ==> update_rank(later) < update_rank(
            update,
        ),
{
}

/// What failed is never forgotten: the messages of the failure stay at the start
/// of what the update fails with. Only of a failed push is the last message
/// replaced.
pub proof fn law_failure_is_passed_on(
    opts: StackedOptionsView,
    update: UpdateView,
    trail: Trail,
)
    requires
        !(update.stage is Head),
    ensures
        update.next(opts, ReplyView::Failed(trail)) matches Step::Finished(Err(messages)) && {
            ||| trail.is_prefix_of(messages) && messages.len() <= trail.len() + 1
            ||| update.stage is Push && messages == (if trail.len() == 0 {
                seq!["git push failed"@]
            } else {
                trail.drop_last().push("git push failed"@)
            })
        },
{
    assert(trail.is_prefix_of(trail));
    assert(forall|message: Seq<char>| trail.is_prefix_of(#[trigger] trail.push(message)));
}

/// An update starts with a look at its base.
pub proof fn law_update_starts_with_its_base(
    revision: Revision,
    base_ref: String,
    head_branch: String,
    update: Update,
    config: Config,
    action: Action,
)
    requires
        call_ensures(Update::start, (revision, base_ref, head_branch), update),
        call_ensures(Update::request, (&update, &config), action),
    ensures
        action@ == (ActionView::ResolveRef { name: base_ref@ }),
        update@ == UpdateView::start(revision@, base_ref@, head_branch@),
{
}

/// An update that is given its replies one by one stands where the row of them says.
pub proof fn law_update_follows_its_replies(
    config: Config,
    opts: StackedOptions,
    start: UpdateView,
    replies: Seq<ReplyView>,
    update: Update,
    action: Action,
    reply: Reply,
    step: Step<Update, Revision, Error>,
)
    requires
        update_after(opts@, start, replies) == Step::<UpdateView, RevisionView, Trail>::Waiting(
            update@,
        ),
        call_ensures(Update::request, (&update, &config), action),
        call_ensures(do_stacked, (&config, &opts, update, reply), step),
    ensures
        action@ == update_after(opts@, start, replies)->Waiting_0.request(config@),
        step_view(step) == update_after(opts@, start, replies.push(reply@)),
{
    assert(replies.push(reply@).drop_last() =~= replies);
}

} // verus!
