//! One branch brought up to date.

use vstd::prelude::*;

use crate::config::{Config, ConfigView};
use crate::error::{reworded, Error};
use crate::jj::{Revision, RevisionView};
use crate::oid::{hex, Oid};
use crate::stacked::exchange::{Action, ActionView, Reply, ReplyView};
use crate::stacked::{step_view, StackedOptions, StackedOptionsView, Step, Trail};
use crate::text::{join2, join3, lemma_views_push, optional, views};

verus! {

/// What was found out of a branch that has to be updated: the base it goes on
/// top of, the head it has, the commit and the tree it is to hold, and whether
/// the base has moved away from under it.
#[derive(Clone, Copy, Debug)]
pub struct Plan {
    pub base: Oid,
    pub head: Oid,
    pub target: Oid,
    pub tree: Oid,
    pub rebase: bool,
}

/// What an [`Update`] is waiting for, and what it knows by then.
#[derive(Debug)]
pub enum Stage {
    Base,
    Head { base: Oid },
    HeadTree { base: Oid, head: Oid },
    Target { base: Oid, head: Oid, head_tree: Oid },
    TargetTree { base: Oid, head: Oid, head_tree: Oid, target: Oid },
    MergeBase { base: Oid, head: Oid, head_tree: Oid, target: Oid, target_tree: Oid },
    UnchangedUrl { number: u64 },
    Unchanged { text: String },
    Body { plan: Plan, title: String },
    Prompt { plan: Plan },
    Commit { plan: Plan, message: String },
    Push { plan: Plan, commit: Oid },
    UpdatedUrl { plan: Plan, number: u64 },
    Updated { text: String },
}

/// What a [`Stage`] says.
#[verifier::ext_equal]
pub enum StageView {
    Base,
    Head { base: Oid },
    HeadTree { base: Oid, head: Oid },
    Target { base: Oid, head: Oid, head_tree: Oid },
    TargetTree { base: Oid, head: Oid, head_tree: Oid, target: Oid },
    MergeBase { base: Oid, head: Oid, head_tree: Oid, target: Oid, target_tree: Oid },
    UnchangedUrl { number: u64 },
    Unchanged { text: Seq<char> },
    Body { plan: Plan, title: Seq<char> },
    Prompt { plan: Plan },
    Commit { plan: Plan, message: Seq<char> },
    Push { plan: Plan, commit: Oid },
    UpdatedUrl { plan: Plan, number: u64 },
    Updated { text: Seq<char> },
}

impl View for Stage {
    type V = StageView;

    open spec fn view(&self) -> StageView {
        match *self {
            Stage::Base => StageView::Base,
            Stage::Head { base } => StageView::Head { base },
            Stage::HeadTree { base, head } => StageView::HeadTree { base, head },
            Stage::Target { base, head, head_tree } => StageView::Target { base, head, head_tree },
            Stage::TargetTree { base, head, head_tree, target } => StageView::TargetTree {
                base,
                head,
                head_tree,
                target,
            },
            Stage::MergeBase { base, head, head_tree, target, target_tree } => StageView::MergeBase {
                base,
                head,
                head_tree,
                target,
                target_tree,
            },
            Stage::UnchangedUrl { number } => StageView::UnchangedUrl { number },
            Stage::Unchanged { text } => StageView::Unchanged { text: text@ },
            Stage::Body { plan, title } => StageView::Body { plan, title: title@ },
            Stage::Prompt { plan } => StageView::Prompt { plan },
            Stage::Commit { plan, message } => StageView::Commit { plan, message: message@ },
            Stage::Push { plan, commit } => StageView::Push { plan, commit },
            Stage::UpdatedUrl { plan, number } => StageView::UpdatedUrl { plan, number },
            Stage::Updated { text } => StageView::Updated { text: text@ },
        }
    }
}

/// A branch that is being brought up to date with a revision.
#[derive(Debug)]
pub struct Update {
    revision: Revision,
    base_ref: String,
    head_branch: String,
    stage: Stage,
}

/// What an [`Update`] says.
#[verifier::ext_equal]
pub struct UpdateView {
    pub revision: RevisionView,
    pub base_ref: Seq<char>,
    pub head_branch: Seq<char>,
    pub stage: StageView,
}

impl View for Update {
    type V = UpdateView;

    closed spec fn view(&self) -> UpdateView {
        UpdateView {
            revision: self.revision@,
            base_ref: self.base_ref@,
            head_branch: self.head_branch@,
            stage: self.stage@,
        }
    }
}

/// The parents of the commit that updates a branch: its head, and the base too
/// where that has moved.
pub open spec fn parents(plan: Plan) -> Seq<Oid> {
    if plan.rebase {
        seq![plan.head, plan.base]
    } else {
        seq![plan.head]
    }
}

/// A branch of the remote, as it is named locally.
pub open spec fn remote_ref(config: ConfigView, branch: Seq<char>) -> Seq<char> {
    config.remote_name + "/"@ + branch
}

/// The command line that puts a commit on a branch of the remote.
pub open spec fn push_args(config: ConfigView, commit: Oid, branch: Seq<char>) -> Seq<Seq<char>> {
    seq![
        "push"@,
        "--atomic"@,
        "--no-verify"@,
        "--"@,
        config.remote_name,
        hex(commit.bytes@) + ":refs/heads/"@ + branch,
    ]
}

impl UpdateView {
    /// An update that has not found anything out yet.
    pub open spec fn start(
        revision: RevisionView,
        base_ref: Seq<char>,
        head_branch: Seq<char>,
    ) -> Self {
        UpdateView { revision, base_ref, head_branch, stage: StageView::Base }
    }

    /// What the update asks for.
    pub open spec fn request(self, config: ConfigView) -> ActionView {
        match self.stage {
            StageView::Base => ActionView::ResolveRef { name: self.base_ref },
            StageView::Head { .. } => ActionView::ResolveRef {
                name: remote_ref(config, self.head_branch),
            },
            StageView::HeadTree { head, .. } => ActionView::TreeOf { commit: head },
            StageView::Target { .. } => ActionView::ResolveRevision { id: self.revision.id },
            StageView::TargetTree { target, .. } => ActionView::TreeOf { commit: target },
            StageView::MergeBase { base, head, .. } => ActionView::MergeBase {
                one: head,
                two: base,
            },
            StageView::UnchangedUrl { number } => ActionView::PullRequestUrl { number },
            StageView::Unchanged { text } => ActionView::Output { icon: "✅"@, text },
            StageView::Body { .. } => ActionView::GithubBody { message: self.revision.message },
            StageView::Prompt { .. } => ActionView::AskMessage,
            StageView::Commit { plan, message } => ActionView::CreateCommit {
                original: plan.target,
                text: message + "\n\nCreated using jj-spr"@,
                tree: plan.tree,
                parents: parents(plan),
            },
            StageView::Push { commit, .. } => ActionView::Push {
                args: push_args(config, commit, self.head_branch),
            },
            StageView::UpdatedUrl { number, .. } => ActionView::PullRequestUrl { number },
            StageView::Updated { text } => ActionView::Output { icon: "✅"@, text },
        }
    }

    /// The update at another stage.
    pub open spec fn at(self, stage: StageView) -> Step<UpdateView, RevisionView, Trail> {
        Step::Waiting(UpdateView { stage, ..self })
    }

    /// The messages with which the update fails when what it asked for failed.
    pub open spec fn failure(self, trail: Trail) -> Trail {
        match self.stage {
            StageView::HeadTree { .. } => trail.push("tree_oid_for_commit"@),
            StageView::Target { .. } => trail.push("resolve revision"@),
            StageView::TargetTree { .. } => trail.push("resolve tree"@),
            StageView::Commit { .. } => trail.push("derive commit"@),
            StageView::Push { .. } => reworded(trail, "git push failed"@),
            _ => trail,
        }
    }

    /// Where the update goes once all is known of the branch. There is nothing to
    /// do where the branch holds the tree already and has the base in it.
    pub open spec fn decided(
        self,
        opts: StackedOptionsView,
        head_tree: Oid,
        plan: Plan,
    ) -> Step<UpdateView, RevisionView, Trail> {
        if plan.tree == head_tree && !plan.rebase {
            match self.revision.pull_request_number {
                Some(number) => self.at(StageView::UnchangedUrl { number }),
                None => self.at(StageView::Unchanged { text: "No update necessary"@ }),
            }
        } else {
            match (self.revision.message.title, opts.message) {
                (Some(title), _) if plan.head == plan.base => self.at(
                    StageView::Body { plan, title },
                ),
                (_, Some(message)) => self.at(StageView::Commit { plan, message }),
                _ => self.at(StageView::Prompt { plan }),
            }
        }
    }

    /// Where the update stands after a reply.
    pub open spec fn next(self, opts: StackedOptionsView, reply: ReplyView) -> Step<
        UpdateView,
        RevisionView,
        Trail,
    > {
        match (self.stage, reply) {
            // A branch that is not there yet starts at the base.
            (StageView::Head { base }, ReplyView::Failed(_)) => self.at(
                StageView::HeadTree { base, head: base },
            ),
            (_, ReplyView::Failed(trail)) => Step::Finished(Err(self.failure(trail))),
            (StageView::Base, ReplyView::Id(base)) => self.at(StageView::Head { base }),
            (StageView::Head { base }, ReplyView::Id(head)) => self.at(
                StageView::HeadTree { base, head },
            ),
            (StageView::HeadTree { base, head }, ReplyView::Id(head_tree)) => self.at(
                StageView::Target { base, head, head_tree },
            ),
            (StageView::Target { base, head, head_tree }, ReplyView::Id(target)) => self.at(
                StageView::TargetTree { base, head, head_tree, target },
            ),
            (StageView::TargetTree { base, head, head_tree, target }, ReplyView::Id(target_tree)) =>
            self.at(StageView::MergeBase { base, head, head_tree, target, target_tree }),
            (
                StageView::MergeBase { base, head, head_tree, target, target_tree },
                ReplyView::Id(merge_base),
            ) => self.decided(
                opts,
                head_tree,
                Plan { base, head, target, tree: target_tree, rebase: merge_base != base },
            ),
            (StageView::UnchangedUrl { .. }, ReplyView::Text(url)) => self.at(
                StageView::Unchanged { text: "No update necessary for #"@ + url },
            ),
            (StageView::Body { plan, title }, ReplyView::Text(body)) => self.at(
                StageView::Commit { plan, message: title + "\n\n"@ + body },
            ),
            (StageView::Prompt { plan }, ReplyView::Text(message)) => self.at(
                StageView::Commit { plan, message },
            ),
            (StageView::Commit { plan, .. }, ReplyView::Id(commit)) => (UpdateView {
                revision: self.revision.with_last_commit(hex(commit.bytes@)),
                ..self
            }).at(StageView::Push { plan, commit }),
            (StageView::Push { plan, .. }, _) => match self.revision.pull_request_number {
                Some(number) => self.at(StageView::UpdatedUrl { plan, number }),
                None => Step::Finished(Ok(self.revision)),
            },
            (StageView::UpdatedUrl { plan, .. }, ReplyView::Text(url)) => self.at(
                StageView::Updated {
                    text: if plan.rebase {
                        "Rebased "@ + url
                    } else {
                        "Updated "@ + url
                    },
                },
            ),
            _ => Step::Finished(Ok(self.revision)),
        }
    }
}


/// Adds a text to a list of texts.
fn push_text(args: &mut Vec<String>, text: String)
    ensures
        views(final(args)@) == views(old(args)@).push(text@),
{
    proof {
        lemma_views_push(args@, text);
    }
    args.push(text);
}

impl Plan {
    /// The parents of the commit that updates the branch.
    fn parents(&self) -> (r: Vec<Oid>)
        ensures
            r@ == parents(*self),
    {
        let mut r: Vec<Oid> = Vec::new();
        r.push(self.head);
        if self.rebase {
            r.push(self.base);
        }
        assert(r@ =~= parents(*self));
        r
    }
}

impl Update {
    /// Starts to bring a branch up to date with a revision, on top of a base.
    pub fn start(revision: Revision, base_ref: String, head_branch: String) -> (r: Self)
        ensures
            r@ == UpdateView::start(revision@, base_ref@, head_branch@),
    {
        Update { revision, base_ref, head_branch, stage: Stage::Base }
    }

    /// What the update asks for.
    pub fn request(&self, config: &Config) -> (r: Action)
        ensures
            r@ == self@.request(config@),
    {
        match &self.stage {
            Stage::Base => Action::ResolveRef { name: self.base_ref.clone() },
            Stage::Head { .. } => Action::ResolveRef {
                name: join3(config.remote_name.as_str(), "/", self.head_branch.as_str()),
            },
            Stage::HeadTree { head, .. } => Action::TreeOf { commit: *head },
            Stage::Target { .. } => Action::ResolveRevision { id: self.revision.id.clone() },
            Stage::TargetTree { target, .. } => Action::TreeOf { commit: *target },
            Stage::MergeBase { base, head, .. } => Action::MergeBase { one: *head, two: *base },
            Stage::UnchangedUrl { number } => Action::PullRequestUrl { number: *number },
            Stage::Unchanged { text } => Action::Output { icon: "✅".into(), text: text.clone() },
            Stage::Body { .. } => Action::GithubBody { message: self.revision.message.clone() },
            Stage::Prompt { .. } => Action::AskMessage,
            Stage::Commit { plan, message } => Action::CreateCommit {
                original: plan.target,
                text: join2(message.as_str(), "\n\nCreated using jj-spr"),
                tree: plan.tree,
                parents: plan.parents(),
            },
            Stage::Push { commit, .. } => {
                let mut args: Vec<String> = Vec::new();
                assert(views(args@) =~= Seq::<Seq<char>>::empty());
                push_text(&mut args, "push".into());
                push_text(&mut args, "--atomic".into());
                push_text(&mut args, "--no-verify".into());
                push_text(&mut args, "--".into());
                push_text(&mut args, config.remote_name.clone());
                push_text(
                    &mut args,
                    join3(commit.hex_text().as_str(), ":refs/heads/", self.head_branch.as_str()),
                );
                assert(views(args@) =~= push_args(config@, *commit, self.head_branch@));
                Action::Push { args }
            },
            Stage::UpdatedUrl { number, .. } => Action::PullRequestUrl { number: *number },
            Stage::Updated { text } => Action::Output { icon: "✅".into(), text: text.clone() },
        }
    }

    /// The branch that is being updated.
    pub(crate) fn head_branch(&self) -> (r: String)
        ensures
            r@ == self@.head_branch,
    {
        self.head_branch.clone()
    }

    /// The update at another stage.
    fn at(self, stage: Stage) -> (r: Step<Update, Revision, Error>)
        ensures
            step_view(r) == self@.at(stage@),
    {
        Step::Waiting(
            Update {
                revision: self.revision,
                base_ref: self.base_ref,
                head_branch: self.head_branch,
                stage,
            },
        )
    }

    /// The failure of the update when what it asked for failed.
    fn failure(&self, error: Error) -> (r: Error)
        ensures
            r@ == self@.failure(error@),
    {
        let mut error = error;
        match &self.stage {
            Stage::HeadTree { .. } => error.push("tree_oid_for_commit".into()),
            Stage::Target { .. } => error.push("resolve revision".into()),
            Stage::TargetTree { .. } => error.push("resolve tree".into()),
            Stage::Commit { .. } => error.push("derive commit".into()),
            Stage::Push { .. } => error.reword("git push failed".into()),
            _ => {},
        }
        error
    }

    /// Decides what becomes of the branch once all is known of it.
    fn decide(self, opts: &StackedOptions, head_tree: Oid, plan: Plan) -> (r: Step<
        Update,
        Revision,
        Error,
    >)
        ensures
            step_view(r) == self@.decided(opts@, head_tree, plan),
    {
        if plan.tree == head_tree && !plan.rebase {
            return match self.revision.pull_request_number {
                Some(number) => self.at(Stage::UnchangedUrl { number }),
                None => self.at(Stage::Unchanged { text: "No update necessary".into() }),
            };
        }
        if plan.head == plan.base {
            if let Some(title) = &self.revision.message.title {
                let title = title.clone();
                return self.at(Stage::Body { plan, title });
            }
        }
        match &opts.message {
            Some(message) => self.at(Stage::Commit { plan, message: message.clone() }),
            None => self.at(Stage::Prompt { plan }),
        }
    }
}

/// Takes an update one reply further.
///
/// The update looks up the base and the head of the branch, the trees of the head
/// and of the revision, and whether the base is still in the branch. Where the
/// branch has to change, it gets a commit on top of its head, which is pushed.
pub fn do_stacked(config: &Config, opts: &StackedOptions, update: Update, reply: Reply) -> (r: Step<
    Update,
    Revision,
    Error,
>)
    requires
        update@.request(config@).admits(reply@),
    ensures
        step_view(r) == update@.next(opts@, reply@),
{
    match (&update.stage, reply) {
        // A branch that is not there yet starts at the base.
        (Stage::Head { base }, Reply::Failed(_)) => {
            let base = *base;
            update.at(Stage::HeadTree { base, head: base })
        },
        (_, Reply::Failed(error)) => Step::Finished(Err(update.failure(error))),
        (Stage::Base, Reply::Id(base)) => update.at(Stage::Head { base }),
        (Stage::Head { base }, Reply::Id(head)) => {
            let base = *base;
            update.at(Stage::HeadTree { base, head })
        },
        (Stage::HeadTree { base, head }, Reply::Id(head_tree)) => {
            let (base, head) = (*base, *head);
            update.at(Stage::Target { base, head, head_tree })
        },
        (Stage::Target { base, head, head_tree }, Reply::Id(target)) => {
            let (base, head, head_tree) = (*base, *head, *head_tree);
            update.at(Stage::TargetTree { base, head, head_tree, target })
        },
        (Stage::TargetTree { base, head, head_tree, target }, Reply::Id(target_tree)) => {
            let (base, head, head_tree, target) = (*base, *head, *head_tree, *target);
            update.at(Stage::MergeBase { base, head, head_tree, target, target_tree })
        },
        (
            Stage::MergeBase { base, head, head_tree, target, target_tree },
            Reply::Id(merge_base),
        ) => {
            let rebase = merge_base != *base;
            let plan = Plan { base: *base, head: *head, target: *target, tree: *target_tree, rebase };
            let head_tree = *head_tree;
            update.decide(opts, head_tree, plan)
        },
        (Stage::UnchangedUrl { .. }, Reply::Text(url)) => {
            let text = join2("No update necessary for #", url.as_str());
            update.at(Stage::Unchanged { text })
        },
        (Stage::Body { plan, title }, Reply::Text(body)) => {
            let plan = *plan;
            let message = join3(title.as_str(), "\n\n", body.as_str());
            update.at(Stage::Commit { plan, message })
        },
        (Stage::Prompt { plan }, Reply::Text(message)) => {
            let plan = *plan;
            update.at(Stage::Commit { plan, message })
        },
        (Stage::Commit { plan, .. }, Reply::Id(commit)) => {
            let plan = *plan;
            let mut update = update;
            update.revision.message.last_commit = Some(commit.hex_text());
            update.at(Stage::Push { plan, commit })
        },
        (Stage::Push { plan, .. }, _) => {
            let plan = *plan;
            match update.revision.pull_request_number {
                Some(number) => update.at(Stage::UpdatedUrl { plan, number }),
                None => Step::Finished(Ok(update.revision)),
            }
        },
        (Stage::UpdatedUrl { plan, .. }, Reply::Text(url)) => {
            let text = if plan.rebase {
                join2("Rebased ", url.as_str())
            } else {
                join2("Updated ", url.as_str())
            };
            update.at(Stage::Updated { text })
        },
        _ => Step::Finished(Ok(update.revision)),
    }
}

} // verus!
