//! The branches of a whole stack, one after the other.

use vstd::prelude::*;

use crate::config::{Config, ConfigView};
use crate::error::Error;
use crate::github::{PullRequest, PullRequestView};
use crate::jj::{ChangeId, Revision, RevisionView};
use crate::oid::{hex, Oid};
use crate::stacked::exchange::{Action, ActionView, Reply, ReplyView};
use crate::stacked::update::{do_stacked, remote_ref, Update, UpdateView};
use crate::stacked::{StackedOptions, StackedOptionsView, Step, Trail};
use crate::text::{join2, join3, lemma_views_push, optional, strip_prefix, views, without_prefix};

verus! {

/// A revision whose branch is up to date: the branch that holds it, the one that
/// its pull request is made against, and the pull request that it has already.
#[derive(Debug)]
pub struct BranchAction {
    pub revision: Revision,
    pub head_branch: String,
    pub base_branch: String,
    pub existing_nr: Option<u64>,
}

/// What a [`BranchAction`] says.
#[verifier::ext_equal]
pub struct BranchActionView {
    pub revision: RevisionView,
    pub head_branch: Seq<char>,
    pub base_branch: Seq<char>,
    pub existing_nr: Option<u64>,
}

impl View for BranchAction {
    type V = BranchActionView;

    open spec fn view(&self) -> BranchActionView {
        BranchActionView {
            revision: self.revision@,
            head_branch: self.head_branch@,
            base_branch: self.base_branch@,
            existing_nr: self.existing_nr,
        }
    }
}

/// A revision with the pull request that it has, if it has one.
#[derive(Debug)]
pub struct Entry {
    pub revision: Revision,
    pub pull_request: Option<PullRequest>,
}

/// What an [`Entry`] says.
#[verifier::ext_equal]
pub struct EntryView {
    pub revision: RevisionView,
    pub pull_request: Option<PullRequestView>,
}

impl View for Entry {
    type V = EntryView;

    open spec fn view(&self) -> EntryView {
        EntryView { revision: self.revision@, pull_request: optional(self.pull_request) }
    }
}

/// What is being done for the revision whose turn it is.
#[derive(Debug)]
pub enum Phase {
    /// A name for its branch is being made up.
    Naming { revision: Revision },
    /// Its branch is being brought up to date.
    Updating { base_ref: Option<String>, existing_nr: Option<u64>, update: Update },
}

/// What a [`Phase`] says.
#[verifier::ext_equal]
pub enum PhaseView {
    Naming { revision: RevisionView },
    Updating { base_ref: Option<Seq<char>>, existing_nr: Option<u64>, update: UpdateView },
}

impl View for Phase {
    type V = PhaseView;

    open spec fn view(&self) -> PhaseView {
        match *self {
            Phase::Naming { revision } => PhaseView::Naming { revision: revision@ },
            Phase::Updating { base_ref, existing_nr, update } => PhaseView::Updating {
                base_ref: optional(base_ref),
                existing_nr,
                update: update@,
            },
        }
    }
}

/// A stack whose branches are being brought up to date.
#[derive(Debug)]
pub struct Branches {
    trunk: Oid,
    seen: Vec<BranchAction>,
    phase: Phase,
    queue: Vec<Entry>,
}

/// What [`Branches`] say: the commit that the stack grows from, the revisions
/// that are done, the one whose turn it is, and those that are left.
#[verifier::ext_equal]
pub struct BranchesView {
    pub trunk: Oid,
    pub seen: Seq<BranchActionView>,
    pub phase: PhaseView,
    pub queue: Seq<EntryView>,
}

impl View for Branches {
    type V = BranchesView;

    closed spec fn view(&self) -> BranchesView {
        BranchesView {
            trunk: self.trunk,
            seen: views(self.seen@),
            phase: self.phase@,
            queue: views(self.queue@),
        }
    }
}

/// The first of the revisions that are done which has the given name.
pub open spec fn first_named(seen: Seq<BranchActionView>, id: Seq<char>) -> Option<BranchActionView>
    decreases seen.len(),
{
    if seen.len() == 0 {
        None
    } else {
        match first_named(seen.drop_last(), id) {
            Some(action) => Some(action),
            None => if seen.last().revision.id == id {
                Some(seen.last())
            } else {
                None
            },
        }
    }
}

/// The ref that a revision is to go on top of, if one is known: what its pull
/// request is made against, or else the branch of its parent.
pub open spec fn base_ref_of(
    config: ConfigView,
    trunk: Oid,
    seen: Seq<BranchActionView>,
    entry: EntryView,
) -> Option<Seq<char>> {
    match entry.pull_request {
        Some(pull_request) => Some(
            if pull_request.base.is_master_branch {
                hex(trunk.bytes@)
            } else {
                pull_request.base.local
            },
        ),
        None => match first_named(seen, entry.revision.parent_ids[0]) {
            Some(parent) => Some(remote_ref(config, parent.head_branch)),
            None => None,
        },
    }
}

/// The branch that a pull request on top of a ref is made against: the branch of
/// the remote that the ref names, or else the one that everything is merged into.
pub open spec fn base_branch_of(config: ConfigView, base_ref: Option<Seq<char>>) -> Seq<char> {
    match base_ref {
        Some(base_ref) => match without_prefix(base_ref, config.remote_name + "/"@) {
            Some(branch) => branch,
            None => config.master_branch,
        },
        None => config.master_branch,
    }
}

/// Whether a revision can be put on top of its parent: it has a pull request that
/// says where it goes, or it has a parent to look for.
pub open spec fn has_place(entry: EntryView) -> bool {
    entry.pull_request is Some || entry.revision.parent_ids.len() > 0
}

impl BranchesView {
    /// Starts to update the branch of a revision.
    pub open spec fn updating(
        config: ConfigView,
        trunk: Oid,
        seen: Seq<BranchActionView>,
        entry: EntryView,
        head_branch: Seq<char>,
        queue: Seq<EntryView>,
    ) -> Self {
        let base_ref = base_ref_of(config, trunk, seen, entry);
        BranchesView {
            trunk,
            seen,
            phase: PhaseView::Updating {
                base_ref,
                existing_nr: match entry.pull_request {
                    Some(pull_request) => Some(pull_request.number),
                    None => None,
                },
                update: UpdateView::start(
                    entry.revision,
                    match base_ref {
                        Some(base_ref) => base_ref,
                        None => hex(trunk.bytes@),
                    },
                    head_branch,
                ),
            },
            queue,
        }
    }

    /// Turns to the next revision. One with a pull request has a branch; for any
    /// other a name has to be found.
    pub open spec fn turn(
        config: ConfigView,
        trunk: Oid,
        seen: Seq<BranchActionView>,
        queue: Seq<EntryView>,
    ) -> Step<BranchesView, Seq<BranchActionView>, Trail> {
        if queue.len() == 0 {
            Step::Finished(Ok(seen))
        } else {
            Step::Waiting(
                match queue[0].pull_request {
                    Some(pull_request) => Self::updating(
                        config,
                        trunk,
                        seen,
                        queue[0],
                        pull_request.head.branch_name,
                        queue.skip(1),
                    ),
                    None => BranchesView {
                        trunk,
                        seen,
                        phase: PhaseView::Naming { revision: queue[0].revision },
                        queue: queue.skip(1),
                    },
                },
            )
        }
    }

    /// What the stack asks for.
    pub open spec fn request(self, config: ConfigView) -> ActionView {
        match self.phase {
            PhaseView::Naming { revision } => ActionView::NewBranchName {
                title: match revision.message.title {
                    Some(title) => title,
                    None => Seq::empty(),
                },
            },
            PhaseView::Updating { update, .. } => update.request(config),
        }
    }

    /// Where the stack stands after a reply.
    pub open spec fn next(
        self,
        config: ConfigView,
        opts: StackedOptionsView,
        reply: ReplyView,
    ) -> Step<BranchesView, Seq<BranchActionView>, Trail> {
        match self.phase {
            PhaseView::Naming { revision } => match reply {
                ReplyView::Text(name) => Step::Waiting(
                    Self::updating(
                        config,
                        self.trunk,
                        self.seen,
                        EntryView { revision, pull_request: None },
                        name,
                        self.queue,
                    ),
                ),
                ReplyView::Failed(trail) => Step::Finished(Err(trail)),
                _ => Step::Finished(Ok(self.seen)),
            },
            PhaseView::Updating { base_ref, existing_nr, update } => match update.next(
                opts,
                reply,
            ) {
                Step::Waiting(update) => Step::Waiting(
                    BranchesView {
                        phase: PhaseView::Updating { base_ref, existing_nr, update },
                        ..self
                    },
                ),
                Step::Finished(Err(trail)) => Step::Finished(Err(trail.push("do_stacked"@))),
                Step::Finished(Ok(revision)) => Self::turn(
                    config,
                    self.trunk,
                    self.seen.push(
                        BranchActionView {
                            revision,
                            head_branch: update.head_branch,
                            base_branch: base_branch_of(config, base_ref),
                            existing_nr,
                        },
                    ),
                    self.queue,
                ),
            },
        }
    }

    /// Whether every revision that is left can be put on top of its parent. Only
    /// the first revision of a stack has no other one to look among.
    pub open spec fn wf(self) -> bool {
        &&& forall|i: int| 0 <= i < self.queue.len() ==> has_place(#[trigger] self.queue[i])
        &&& match self.phase {
            PhaseView::Naming { revision } => self.seen.len() > 0 ==> revision.parent_ids.len() > 0,
            _ => true,
        }
    }
}

/// The view of a step of the stack.
pub open spec fn branches_step_view(
    step: Step<Branches, Vec<BranchAction>, Error>,
) -> Step<BranchesView, Seq<BranchActionView>, Trail> {
    match step {
        Step::Waiting(state) => Step::Waiting(state@),
        Step::Finished(Ok(actions)) => Step::Finished(Ok(views(actions@))),
        Step::Finished(Err(error)) => Step::Finished(Err(error@)),
    }
}

/// Whether a step of the stack leaves it well-formed.
pub open spec fn step_wf(step: Step<BranchesView, Seq<BranchActionView>, Trail>) -> bool {
    match step {
        Step::Waiting(state) => state.wf(),
        _ => true,
    }
}

/// Finds the branch of the revision with the given name among those that are
/// done.
fn find_branch(seen: &Vec<BranchAction>, id: &ChangeId) -> (r: Option<String>)
    ensures
        optional(r) == (match first_named(views(seen@), id@) {
            Some(action) => Some(action.head_branch),
            None => None,
        }),
{
    let count: usize = seen.len();
    let mut i: usize = 0;
    assert(views(seen@).take(0) =~= Seq::<BranchActionView>::empty());
    while i < count
        invariant
            count == seen@.len(),
            i <= count,
            first_named(views(seen@).take(i as int), id@) is None,
        decreases count - i,
    {
        assert(views(seen@).take(i + 1).drop_last() =~= views(seen@).take(i as int));
        if seen[i].revision.id.same_as(id) {
            proof {
                lemma_first_named_stays(views(seen@), i + 1, id@);
            }
            return Some(seen[i].head_branch.clone());
        }
        i = i + 1;
    }
    assert(views(seen@).take(count as int) =~= views(seen@));
    None
}

/// What was found among the first revisions is found among all of them.
proof fn lemma_first_named_stays(seen: Seq<BranchActionView>, count: int, id: Seq<char>)
    requires
        0 <= count <= seen.len(),
        first_named(seen.take(count), id) is Some,
    ensures
        first_named(seen, id) == first_named(seen.take(count), id),
    decreases seen.len(),
{
    if count == seen.len() {
        assert(seen.take(count) =~= seen);
    } else {
        assert(seen.drop_last().take(count) =~= seen.take(count));
        lemma_first_named_stays(seen.drop_last(), count, id);
    }
}

/// The ref that a revision is to go on top of, if one is known.
fn find_base_ref(
    config: &Config,
    trunk: Oid,
    seen: &Vec<BranchAction>,
    revision: &Revision,
    pull_request: &Option<PullRequest>,
) -> (r: Option<String>)
    requires
        pull_request is None && seen@.len() > 0 ==> revision.parent_ids@.len() > 0,
    ensures
        optional(r) == base_ref_of(
            config@,
            trunk,
            views(seen@),
            (EntryView { revision: revision@, pull_request: optional(*pull_request) }),
        ),
{
    if let Some(pull_request) = pull_request {
        if pull_request.base.is_master_branch {
            return Some(trunk.hex_text());
        }
        return Some(pull_request.base.local.clone());
    }
    if seen.len() == 0 {
        return None;
    }
    match find_branch(seen, &revision.parent_ids[0]) {
        Some(branch) => Some(join3(config.remote_name.as_str(), "/", branch.as_str())),
        None => None,
    }
}

/// The branch that a pull request on top of a ref is made against.
fn find_base_branch(config: &Config, base_ref: &Option<String>) -> (r: String)
    ensures
        r@ == base_branch_of(config@, optional(*base_ref)),
{
    if let Some(base_ref) = base_ref {
        let prefix = join2(config.remote_name.as_str(), "/");
        if let Some(branch) = strip_prefix(base_ref.as_str(), prefix.as_str()) {
            return branch;
        }
    }
    config.master_branch.clone()
}

/// Starts to update the branch of a revision.
fn start_update(
    config: &Config,
    trunk: Oid,
    seen: Vec<BranchAction>,
    entry: Entry,
    head_branch: String,
    queue: Vec<Entry>,
) -> (r: Branches)
    requires
        entry.pull_request is None && seen@.len() > 0 ==> entry.revision.parent_ids@.len() > 0,
    ensures
        r@ == BranchesView::updating(
            config@,
            trunk,
            views(seen@),
            entry@,
            head_branch@,
            views(queue@),
        ),
{
    let Entry { revision, pull_request } = entry;
    let base_ref = find_base_ref(config, trunk, &seen, &revision, &pull_request);
    let base = match &base_ref {
        Some(base_ref) => base_ref.clone(),
        None => trunk.hex_text(),
    };
    let existing_nr = match &pull_request {
        Some(pull_request) => Some(pull_request.number),
        None => None,
    };
    let update = Update::start(revision, base, head_branch);
    Branches { trunk, seen, phase: Phase::Updating { base_ref, existing_nr, update }, queue }
}

/// Turns to the next revision.
fn turn(config: &Config, trunk: Oid, seen: Vec<BranchAction>, queue: Vec<Entry>) -> (r: Step<
    Branches,
    Vec<BranchAction>,
    Error,
>)
    requires
        forall|i: int|
            (seen@.len() > 0 || i > 0) && 0 <= i < queue@.len() ==> has_place(
                (#[trigger] queue@[i])@,
            ),
    ensures
        branches_step_view(r) == BranchesView::turn(config@, trunk, views(seen@), views(queue@)),
        step_wf(branches_step_view(r)),
{
    let mut queue = queue;
    let ghost before = queue@;
    if queue.len() == 0 {
        return Step::Finished(Ok(seen));
    }
    let entry = queue.remove(0);
    assert(views(queue@) =~= views(before).skip(1));
    assert(entry@ == views(before)[0]);
    assert forall|i: int| 0 <= i < queue@.len() implies has_place(#[trigger] views(queue@)[i]) by {
        assert(has_place(before[i + 1]@));
    }
    match &entry.pull_request {
        Some(pull_request) => {
            let head_branch = pull_request.head.branch_name.clone();
            Step::Waiting(start_update(config, trunk, seen, entry, head_branch, queue))
        },
        None => {
            assert(seen@.len() > 0 ==> has_place(before[0]@));
            let phase = Phase::Naming { revision: entry.revision };
            Step::Waiting(Branches { trunk, seen, phase, queue })
        },
    }
}

/// Starts on a stack of revisions, the lowest first, that grows from a commit.
///
/// Every revision but the first needs a pull request or a parent.
pub fn start_revs(config: &Config, revisions: Vec<Entry>, trunk: Oid) -> (r: Step<
    Branches,
    Vec<BranchAction>,
    Error,
>)
    requires
        forall|i: int| 0 < i < revisions@.len() ==> has_place((#[trigger] revisions@[i])@),
    ensures
        branches_step_view(r) == BranchesView::turn(config@, trunk, Seq::empty(), views(revisions@)),
        step_wf(branches_step_view(r)),
{
    let seen: Vec<BranchAction> = Vec::new();
    assert(views(seen@) =~= Seq::<BranchActionView>::empty());
    turn(config, trunk, seen, revisions)
}

impl Branches {
    /// What the stack asks for.
    pub fn request(&self, config: &Config) -> (r: Action)
        ensures
            r@ == self@.request(config@),
    {
        match &self.phase {
            Phase::Naming { revision } => Action::NewBranchName {
                title: match &revision.message.title {
                    Some(title) => title.clone(),
                    None => String::new(),
                },
            },
            Phase::Updating { update, .. } => update.request(config),
        }
    }
}

/// Takes a stack one reply further.
///
/// Each revision in turn gets a branch: that of its pull request, or a new one. A
/// new one goes on top of the branch of the parent, where that is in the stack.
pub fn handle_revs(config: &Config, opts: &StackedOptions, branches: Branches, reply: Reply) -> (r:
    Step<Branches, Vec<BranchAction>, Error>)
    requires
        branches@.wf(),
        branches@.request(config@).admits(reply@),
    ensures
        branches_step_view(r) == branches@.next(config@, opts@, reply@),
        step_wf(branches_step_view(r)),
{
    let Branches { trunk, seen, phase, queue } = branches;
    match phase {
        Phase::Naming { revision } => match reply {
            Reply::Text(name) => {
                let entry = Entry { revision, pull_request: None };
                Step::Waiting(start_update(config, trunk, seen, entry, name, queue))
            },
            Reply::Failed(error) => Step::Finished(Err(error)),
            _ => Step::Finished(Ok(seen)),
        },
        Phase::Updating { base_ref, existing_nr, update } => {
            let head_branch = update.head_branch();
            match do_stacked(config, opts, update, reply) {
                Step::Waiting(update) => {
                    let phase = Phase::Updating { base_ref, existing_nr, update };
                    Step::Waiting(Branches { trunk, seen, phase, queue })
                },
                Step::Finished(Err(error)) => {
                    let mut error = error;
                    error.push("do_stacked".into());
                    Step::Finished(Err(error))
                },
                Step::Finished(Ok(revision)) => {
                    let base_branch = find_base_branch(config, &base_ref);
                    let action = BranchAction { revision, head_branch, base_branch, existing_nr };
                    let mut seen = seen;
                    proof {
                        lemma_views_push(seen@, action);
                    }
                    seen.push(action);
                    assert forall|i: int| 0 <= i < queue@.len() implies has_place(
                        (#[trigger] queue@[i])@,
                    ) by {
                        assert(has_place(views(queue@)[i]));
                    }
                    turn(config, trunk, seen, queue)
                },
            }
        },
    }
}

/// A branch says what it holds, field by field, and so does an entry.
pub proof fn law_branches_say_what_they_hold(action: BranchAction, entry: Entry)
    ensures
        action@.revision == action.revision@,
        action@.head_branch == action.head_branch@,
        action@.base_branch == action.base_branch@,
        action@.existing_nr == action.existing_nr,
        entry@.revision == entry.revision@,
        entry@.pull_request is Some <==> entry.pull_request is Some,
        entry.pull_request is Some ==> entry@.pull_request->0 == entry.pull_request->0@,
{
}

} // verus!
