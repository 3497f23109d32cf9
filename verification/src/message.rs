//! The sections of a commit message.

use vstd::prelude::*;

use crate::text::optional;

verus! {

/// A commit message by sections. The command reads the title and writes the last
/// commit and the pull request; it carries the other sections along, each with
/// its name.
#[derive(Debug)]
pub struct Message {
    pub title: Option<String>,
    pub last_commit: Option<String>,
    pub pull_request: Option<String>,
    pub others: Vec<(String, String)>,
}

/// What a [`Message`] says.
#[verifier::ext_equal]
pub struct MessageView {
    pub title: Option<Seq<char>>,
    pub last_commit: Option<Seq<char>>,
    pub pull_request: Option<Seq<char>>,
    pub others: Seq<(Seq<char>, Seq<char>)>,
}

impl View for Message {
    type V = MessageView;

    open spec fn view(&self) -> MessageView {
        MessageView {
            title: optional(self.title),
            last_commit: optional(self.last_commit),
            pull_request: optional(self.pull_request),
            others: self.others@.map_values(
                |section: (String, String)| (section.0@, section.1@),
            ),
        }
    }
}

impl Clone for Message {
    fn clone(&self) -> (r: Self)
        ensures
            r@ == self@,
    {
        let mut others: Vec<(String, String)> = Vec::new();
        let count: usize = self.others.len();
        let mut i: usize = 0;
        while i < count
            invariant
                count == self.others@.len(),
                i <= count,
                others@ == self.others@.take(i as int),
            decreases count - i,
        {
            others.push((self.others[i].0.clone(), self.others[i].1.clone()));
            assert(others@ =~= self.others@.take(i + 1));
            i = i + 1;
        }
        assert(others@ =~= self.others@);
        Self {
            title: self.title.clone(),
            last_commit: self.last_commit.clone(),
            pull_request: self.pull_request.clone(),
            others,
        }
    }
}

impl MessageView {
    /// The message with the last commit written into it.
    pub open spec fn with_last_commit(self, commit: Seq<char>) -> Self {
        MessageView { last_commit: Some(commit), ..self }
    }

    /// The message with the pull request written into it.
    pub open spec fn with_pull_request(self, url: Seq<char>) -> Self {
        MessageView { pull_request: Some(url), ..self }
    }
}

/// A message says what it holds, section by section.
pub proof fn law_message_says_what_it_holds(message: Message)
    ensures
        message.title is Some <==> message@.title is Some,
        message.title is Some ==> message@.title->0 == message.title->0@,
        message.last_commit is Some <==> message@.last_commit is Some,
        message.last_commit is Some ==> message@.last_commit->0 == message.last_commit->0@,
        message.pull_request is Some <==> message@.pull_request is Some,
        message.pull_request is Some ==> message@.pull_request->0 == message.pull_request->0@,
        message@.others.len() == message.others@.len(),
        forall|i: int|
            0 <= i < message.others@.len() ==> #[trigger] message@.others[i] == (
                message.others@[i].0@,
                message.others@[i].1@,
            ),
{
}

} // verus!
