//! Revisions as Jujutsu knows them.

use vstd::prelude::*;

use crate::message::{Message, MessageView};
use crate::text::{lemma_views_push, views};

verus! {

/// The name under which a change is found again after it was rewritten.
#[derive(Debug)]
pub struct ChangeId(pub String);

impl View for ChangeId {
    type V = Seq<char>;

    open spec fn view(&self) -> Seq<char> {
        self.0@
    }
}

impl Clone for ChangeId {
    fn clone(&self) -> (r: Self)
        ensures
            r@ == self@,
    {
        ChangeId(self.0.clone())
    }
}

/// A text in double quotes with its special characters escaped, as the `Debug`
/// of `str` writes it.
pub uninterp spec fn quoted(text: Seq<char>) -> Seq<char>;

/// The `Debug` of `str`: what it writes depends on the text alone.
#[verifier::external_body]
fn quoted_text(text: &str) -> (r: String)
    ensures
        r@ == quoted(text@),
{
    format!("{:?}", text)
}

impl ChangeId {
    /// The name of a change.
    pub fn from_str(id: String) -> (r: Self)
        ensures
            r@ == id@,
    {
        ChangeId(id)
    }

    /// Whether two names are the same.
    pub fn same_as(&self, other: &ChangeId) -> (r: bool)
        ensures
            r == (self@ == other@),
    {
        self.0 == other.0
    }

    /// The name in double quotes, with its special characters escaped.
    pub(crate) fn quoted(&self) -> (r: String)
        ensures
            r@ == quoted(self@),
    {
        quoted_text(self.0.as_str())
    }
}

/// A revision of the stack.
#[derive(Debug)]
pub struct Revision {
    pub id: ChangeId,
    pub parent_ids: Vec<ChangeId>,
    pub pull_request_number: Option<u64>,
    pub message: Message,
}

/// What a [`Revision`] says.
#[verifier::ext_equal]
pub struct RevisionView {
    pub id: Seq<char>,
    pub parent_ids: Seq<Seq<char>>,
    pub pull_request_number: Option<u64>,
    pub message: MessageView,
}

impl View for Revision {
    type V = RevisionView;

    open spec fn view(&self) -> RevisionView {
        RevisionView {
            id: self.id@,
            parent_ids: views(self.parent_ids@),
            pull_request_number: self.pull_request_number,
            message: self.message@,
        }
    }
}

impl Clone for Revision {
    fn clone(&self) -> (r: Self)
        ensures
            r@ == self@,
    {
        let mut parent_ids: Vec<ChangeId> = Vec::new();
        let count: usize = self.parent_ids.len();
        let mut i: usize = 0;
        while i < count
            invariant
                count == self.parent_ids@.len(),
                i <= count,
                views(parent_ids@) == views(self.parent_ids@).take(i as int),
            decreases count - i,
        {
            let parent_id = self.parent_ids[i].clone();
            proof {
                lemma_views_push(parent_ids@, parent_id);
            }
            parent_ids.push(parent_id);
            assert(views(parent_ids@) =~= views(self.parent_ids@).take(i + 1));
            i = i + 1;
        }
        assert(views(parent_ids@) =~= views(self.parent_ids@));
        Self {
            id: self.id.clone(),
            parent_ids,
            pull_request_number: self.pull_request_number,
            message: self.message.clone(),
        }
    }
}

impl RevisionView {
    /// The revision with the last commit written into its message.
    pub open spec fn with_last_commit(self, commit: Seq<char>) -> Self {
        RevisionView { message: self.message.with_last_commit(commit), ..self }
    }

    /// The revision with its pull request written into its message.
    pub open spec fn with_pull_request(self, url: Seq<char>) -> Self {
        RevisionView { message: self.message.with_pull_request(url), ..self }
    }
}

/// A revision says what it holds, field by field.
pub proof fn law_revision_says_what_it_holds(revision: Revision)
    ensures
        revision@.id == revision.id.0@,
        revision@.parent_ids.len() == revision.parent_ids@.len(),
        forall|i: int|
            0 <= i < revision.parent_ids@.len() ==> #[trigger] revision@.parent_ids[i]
                == revision.parent_ids@[i].0@,
        revision@.pull_request_number == revision.pull_request_number,
        revision@.message == revision.message@,
{
}

} // verus!
