//! Errors as a trail of messages, the most recent last.

use vstd::prelude::*;

use crate::text::{lemma_views_push, views};

verus! {

/// What went wrong: the first message, and whatever was said on top of it.
#[derive(Debug)]
pub struct Error {
    messages: Vec<String>,
}

/// The result of anything that can fail with an [`Error`].
pub type Result<T> = std::result::Result<T, Error>;

impl View for Error {
    type V = Seq<Seq<char>>;

    /// The messages, in the order in which they were added.
    closed spec fn view(&self) -> Seq<Seq<char>> {
        views(self.messages@)
    }
}

impl Clone for Error {
    fn clone(&self) -> (r: Self)
        ensures
            r@ == self@,
    {
        let messages = self.messages.clone();
        assert(messages@ =~= self.messages@);
        Self { messages }
    }
}

/// What an error shows of itself: its most recent message.
pub open spec fn shown(messages: Seq<Seq<char>>) -> Seq<char> {
    if messages.len() == 0 {
        "unknown error"@
    } else {
        messages.last()
    }
}

/// The trail with its most recent message replaced.
pub open spec fn reworded(messages: Seq<Seq<char>>, message: Seq<char>) -> Seq<Seq<char>> {
    if messages.len() == 0 {
        seq![message]
    } else {
        messages.drop_last().push(message)
    }
}

impl Error {
    /// An error with one message.
    pub fn new<S>(message: S) -> (r: Self) where S: Into<String>
        ensures
            exists|text: String| #[trigger]
                call_ensures(S::into, (message,), text) && r@ == seq![text@],
    {
        let text: String = message.into();
        let mut messages: Vec<String> = Vec::new();
        messages.push(text);
        let r = Self { messages };
        assert(r@ =~= seq![text@]);
        r
    }

    /// An error that says nothing yet.
    pub fn empty() -> (r: Self)
        ensures
            r@ == Seq::<Seq<char>>::empty(),
    {
        let r = Self { messages: Vec::new() };
        assert(r@ =~= Seq::<Seq<char>>::empty());
        r
    }

    /// Whether the error says nothing.
    pub fn is_empty(&self) -> (r: bool)
        ensures
            r == (self@.len() == 0),
    {
        self.messages.is_empty()
    }

    /// The messages, the most recent last.
    pub fn messages(&self) -> (r: &Vec<String>)
        ensures
            views(r@) == self@,
    {
        &self.messages
    }

    /// Adds a message.
    pub fn push(&mut self, message: String)
        ensures
            final(self)@ == old(self)@.push(message@),
    {
        proof {
            lemma_views_push(self.messages@, message);
        }
        self.messages.push(message);
    }

    /// Replaces the most recent message.
    pub(crate) fn reword(&mut self, message: String)
        ensures
            final(self)@ == reworded(old(self)@, message@),
    {
        self.messages.pop();
        assert(old(self)@.len() > 0 ==> self@ =~= old(self)@.drop_last());
        self.push(message);
        assert(self@ =~= reworded(old(self)@, message@));
    }

    /// What the error shows of itself.
    pub fn to_text(&self) -> (r: String)
        ensures
            r@ == shown(self@),
    {
        let count: usize = self.messages.len();
        if count > 0 {
            self.messages[count - 1].clone()
        } else {
            "unknown error".into()
        }
    }
}

/// An error of some other kind, in words: what it says of itself, and what each
/// of the errors behind it says, the nearest first.
#[derive(Debug)]
pub struct SourceChain {
    pub text: String,
    pub sources: Vec<String>,
}

/// A text followed by the texts behind it, with colons between them.
pub open spec fn chained(text: Seq<char>, sources: Seq<Seq<char>>) -> Seq<char>
    decreases sources.len(),
{
    if sources.len() == 0 {
        text
    } else {
        chained(text, sources.drop_last()) + ": "@ + sources.last()
    }
}

impl SourceChain {
    /// The whole chain in one message.
    pub open spec fn joined(&self) -> Seq<char> {
        chained(self.text@, views(self.sources@))
    }
}

impl From<SourceChain> for Error {
    /// The error whose one message holds the whole chain.
    fn from(chain: SourceChain) -> (r: Self)
        ensures
            r@ == seq![chain.joined()],
    {
        let SourceChain { text, sources } = chain;
        let ghost texts = views(sources@);
        let mut message: String = text;
        let count: usize = sources.len();
        let mut i: usize = 0;
        assert(texts.take(0) =~= Seq::<Seq<char>>::empty());
        while i < count
            invariant
                count == sources@.len(),
                texts == views(sources@),
                i <= count,
                message@ == chained(text@, texts.take(i as int)),
            decreases count - i,
        {
            message.append(": ");
            message.append(sources[i].as_str());
            assert(texts.take(i + 1).drop_last() =~= texts.take(i as int));
            i = i + 1;
        }
        assert(texts.take(count as int) =~= texts);
        Error::new(message)
    }
}

impl vstd::std_specs::convert::FromSpecImpl<SourceChain> for Error {
    open spec fn obeys_from_spec() -> bool {
        false
    }

    open spec fn from_spec(chain: SourceChain) -> Self {
        arbitrary()
    }
}

/// Ways to say more about a failure.
pub trait ResultExt {
    type Output;

    /// Makes the failure an [`Error`].
    fn convert(self) -> Self::Output;

    /// Adds a message to the failure.
    fn context(self, message: String) -> Self::Output;

    /// Replaces the most recent message of the failure.
    fn reword(self, message: String) -> Self::Output;
}

impl<T> ResultExt for Result<T> {
    type Output = Self;

    fn convert(self) -> (r: Self)
        ensures
            r == self,
    {
        self
    }

    fn context(self, message: String) -> (r: Self)
        ensures
            match self {
                Ok(value) => r == Ok::<T, Error>(value),
                Err(error) => r is Err && r->Err_0@ == error@.push(message@),
            },
    {
        let mut result = self;
        if let Err(error) = &mut result {
            error.push(message);
        }
        result
    }

    fn reword(self, message: String) -> (r: Self)
        ensures
            match self {
                Ok(value) => r == Ok::<T, Error>(value),
                Err(error) => r is Err && r->Err_0@ == reworded(error@, message@),
            },
    {
        let mut result = self;
        if let Err(error) = &mut result {
            error.reword(message);
        }
        result
    }
}

impl<T> ResultExt for std::result::Result<T, SourceChain> {
    type Output = Result<T>;

    fn convert(self) -> (r: Result<T>)
        ensures
            match self {
                Ok(value) => r == Ok::<T, Error>(value),
                Err(chain) => r is Err && r->Err_0@ == seq![chain.joined()],
            },
    {
        match self {
            Ok(value) => Ok(value),
            Err(chain) => Err(chain.into()),
        }
    }

    fn context(self, message: String) -> (r: Result<T>)
        ensures
            match self {
                Ok(value) => r == Ok::<T, Error>(value),
                Err(chain) => r is Err && r->Err_0@ == seq![chain.joined(), message@],
            },
    {
        let r = self.convert().context(message);
        assert(self is Err ==> r->Err_0@ =~= seq![self->Err_0.joined(), message@]);
        r
    }

    fn reword(self, message: String) -> (r: Result<T>)
        ensures
            match self {
                Ok(value) => r == Ok::<T, Error>(value),
                Err(chain) => r is Err && r->Err_0@ == seq![message@],
            },
    {
        let r = self.convert().reword(message);
        assert(self is Err ==> r->Err_0@ =~= seq![message@]);
        r
    }
}

/// The error that ends the program.
pub struct Terminator {
    error: Error,
}

impl View for Terminator {
    type V = Seq<Seq<char>>;

    /// The messages of the error.
    closed spec fn view(&self) -> Seq<Seq<char>> {
        self.error@
    }
}

impl From<Error> for Terminator {
    fn from(error: Error) -> (r: Self)
        ensures
            r@ == error@,
    {
        Self { error }
    }
}

impl vstd::std_specs::convert::FromSpecImpl<Error> for Terminator {
    open spec fn obeys_from_spec() -> bool {
        false
    }

    open spec fn from_spec(error: Error) -> Self {
        arbitrary()
    }
}

impl From<SourceChain> for Terminator {
    fn from(chain: SourceChain) -> (r: Self)
        ensures
            r@ == seq![chain.joined()],
    {
        Self { error: chain.into() }
    }
}

impl vstd::std_specs::convert::FromSpecImpl<SourceChain> for Terminator {
    open spec fn obeys_from_spec() -> bool {
        false
    }

    open spec fn from_spec(chain: SourceChain) -> Self {
        arbitrary()
    }
}

/// Messages on a line each, the most recent first.
pub open spec fn newest_first(messages: Seq<Seq<char>>) -> Seq<char>
    decreases messages.len(),
{
    if messages.len() == 0 {
        Seq::<char>::empty()
    } else {
        messages.last() + "\n"@ + newest_first(messages.drop_last())
    }
}

impl Terminator {
    /// What the program says as it ends.
    pub fn report(&self) -> (r: String)
        ensures
            r@ == "🛑 "@ + newest_first(self@),
    {
        let mut r: String = "🛑 ".into();
        let messages: &Vec<String> = self.error.messages();
        let mut left: usize = messages.len();
        assert(self@.take(left as int) =~= self@);
        while left > 0
            invariant
                views(messages@) == self@,
                left <= messages@.len(),
                r@ + newest_first(self@.take(left as int)) == "🛑 "@ + newest_first(self@),
            decreases left,
        {
            let ghost rest = self@.take(left as int);
            let ghost before = r@;
            left = left - 1;
            r.append(messages[left as usize].as_str());
            r.append("\n");
            assert(rest.drop_last() =~= self@.take(left as int));
            assert(r@ + newest_first(rest.drop_last()) =~= before + newest_first(rest));
        }
        assert(self@.take(0) =~= Seq::<Seq<char>>::empty());
        assert(r@ =~= r@ + newest_first(self@.take(0)));
        r
    }
}

/// Takes the value out of a result; a failure is added to what already failed.
pub fn add_error<T, U>(result: &mut Result<T>, other: Result<U>) -> (r: Option<U>)
    ensures
        match other {
            Ok(value) => r == Some(value) && *final(result) == *old(result),
            Err(error) => r is None && *final(result) is Err && (*final(result))->Err_0@ == (
            match *old(result) {
                Ok(_) => error@,
                Err(earlier) => earlier@ + error@,
            }),
        },
{
    match other {
        Ok(value) => Some(value),
        Err(error) => {
            if let Err(e) = result {
                let ghost earlier = e@;
                let mut messages = error.messages;
                let ghost added = views(messages@);
                e.messages.append(&mut messages);
                assert(e@ =~= earlier + added);
            } else {
                *result = Err(error);
            }
            None
        },
    }
}

/// Rewording takes back exactly the context that was added last. Where nothing was
/// said yet, it says something for the first time.
pub proof fn law_reword_replaces_context(
    messages: Seq<Seq<char>>,
    context: Seq<char>,
    message: Seq<char>,
)
    ensures
        reworded(messages.push(context), message) == messages.push(message),
        reworded(Seq::empty(), message) == seq![message],
{
    assert(messages.push(context).drop_last() =~= messages);
}

/// What was said last is what an error shows, whether it was added or put in
/// place of another message. An error that says nothing is shown as unknown.
pub proof fn law_last_word_is_shown(messages: Seq<Seq<char>>, message: Seq<char>)
    ensures
        shown(messages.push(message)) == message,
        shown(reworded(messages, message)) == message,
        shown(Seq::empty()) == "unknown error"@,
{
}

/// Context never takes away: the earlier messages stay, in their order.
pub proof fn law_context_keeps_messages(messages: Seq<Seq<char>>, message: Seq<char>)
    ensures
        messages.is_prefix_of(messages.push(message)),
        messages.push(message).len() == messages.len() + 1,
{
    assert(messages =~= messages.push(message).subrange(0, messages.len() as int));
}

/// A report gives every message a line, and names the most recent message first. So
/// every message of one failure comes before those of an earlier one that it was
/// added to.
pub proof fn law_report_of_added_errors(earlier: Seq<Seq<char>>, later: Seq<Seq<char>>)
    ensures
        newest_first(earlier + later) == newest_first(later) + newest_first(earlier),
        newest_first(Seq::empty()) == Seq::<char>::empty(),
        forall|message: Seq<char>| newest_first(#[trigger] seq![message]) == message + "\n"@,
    decreases later.len(),
{
    assert forall|message: Seq<char>| newest_first(#[trigger] seq![message]) == message
        + "\n"@ by {
        assert(seq![message].drop_last() =~= Seq::<Seq<char>>::empty());
        assert(newest_first(Seq::<Seq<char>>::empty()) =~= Seq::<char>::empty());
        assert(message + "\n"@ + Seq::<char>::empty() =~= message + "\n"@);
    }
    if later.len() == 0 {
        assert(earlier + later =~= earlier);
        assert(newest_first(later) + newest_first(earlier) =~= newest_first(earlier));
    } else {
        law_report_of_added_errors(earlier, later.drop_last());
        assert((earlier + later).drop_last() =~= earlier + later.drop_last());
        assert(newest_first(earlier + later) =~= newest_first(later) + newest_first(earlier));
    }
}

/// A chain starts with what the error itself says, and ends with what the error
/// behind all others says.
pub proof fn law_chain_ends(text: Seq<char>, sources: Seq<Seq<char>>)
    ensures
        text.is_prefix_of(chained(text, sources)),
        sources.len() > 0 ==> sources.last().is_suffix_of(chained(text, sources)),
    decreases sources.len(),
{
    let whole = chained(text, sources);
    if sources.len() == 0 {
        assert(text =~= whole.subrange(0, text.len() as int));
    } else {
        law_chain_ends(text, sources.drop_last());
        assert(text =~= whole.subrange(0, text.len() as int));
        assert(sources.last() =~= whole.subrange(
            whole.len() - sources.last().len(),
            whole.len() as int,
        ));
    }
}

/// A chain can be told in parts: what is behind an error is added to what was told
/// of it so far, each time with a colon between. An error with nothing behind it is
/// told as it is.
pub proof fn law_chain_is_told_in_parts(
    text: Seq<char>,
    near: Seq<Seq<char>>,
    far: Seq<Seq<char>>,
)
    ensures
        chained(text, near + far) == chained(chained(text, near), far),
        chained(text, Seq::empty()) == text,
        forall|source: Seq<char>| chained(text, #[trigger] seq![source]) == text + ": "@ + source,
    decreases far.len(),
{
    assert forall|source: Seq<char>| chained(text, #[trigger] seq![source]) == text + ": "@
        + source by {
        assert(seq![source].drop_last() =~= Seq::<Seq<char>>::empty());
        assert(chained(text, Seq::<Seq<char>>::empty()) == text);
    }
    if far.len() == 0 {
        assert(near + far =~= near);
    } else {
        law_chain_is_told_in_parts(text, near, far.drop_last());
        assert((near + far).drop_last() =~= near + far.drop_last());
    }
}

/// Context that is added to a failure is what the failure then shows; a success
/// stays what it was.
pub proof fn law_context_is_shown<T>(
    result: Result<T>,
    message: String,
    told: Result<T>,
    text: String,
)
    requires
        call_ensures(<Result<T> as ResultExt>::context, (result, message), told),
        told is Err ==> call_ensures(Error::to_text, (&told->Err_0,), text),
    ensures
        match result {
            Ok(value) => told == Ok::<T, Error>(value),
            Err(error) => told is Err && text@ == message@ && told->Err_0@ == error@ + seq![
                message@,
            ],
        },
{
    if let Err(error) = result {
        assert(error@.push(message@) =~= error@ + seq![message@]);
    }
}

/// Rewording a failure that context was just added to is adding the other message
/// in its place; a success stays what it was.
pub proof fn law_reword_after_context<T>(
    result: Result<T>,
    context: String,
    told: Result<T>,
    message: String,
    reworded_to: Result<T>,
)
    requires
        call_ensures(<Result<T> as ResultExt>::context, (result, context), told),
        call_ensures(<Result<T> as ResultExt>::reword, (told, message), reworded_to),
    ensures
        match result {
            Ok(value) => reworded_to == Ok::<T, Error>(value),
            Err(error) => reworded_to is Err && reworded_to->Err_0@ == error@ + seq![message@],
        },
{
    if let Err(error) = result {
        law_reword_replaces_context(error@, context@, message@);
        assert(error@.push(message@) =~= error@ + seq![message@]);
    }
}

/// An error of another kind becomes one message: what it says of itself, and then
/// what each of the errors behind it says, the nearest first, each after a colon.
pub proof fn law_chain_is_one_message(chain: SourceChain, error: Error, terminator: Terminator)
    requires
        call_ensures(<Error as From<SourceChain>>::from, (chain,), error),
        call_ensures(<Terminator as From<SourceChain>>::from, (chain,), terminator),
    ensures
        error@ == seq![
            chain.sources@.fold_left(
                chain.text@,
                |told: Seq<char>, source: String| told + ": "@ + source@,
            ),
        ],
        terminator@ == error@,
{
    lemma_chained_is_fold(chain.text@, chain.sources@);
}

/// A chain grows from the nearest source to the farthest.
proof fn lemma_chained_is_fold(text: Seq<char>, sources: Seq<String>)
    ensures
        chained(text, views(sources)) == sources.fold_left(
            text,
            |told: Seq<char>, source: String| told + ": "@ + source@,
        ),
    decreases sources.len(),
{
    reveal_with_fuel(Seq::fold_left, 2);
    if sources.len() > 0 {
        lemma_chained_is_fold(text, sources.drop_last());
        assert(views(sources).drop_last() =~= views(sources.drop_last()));
    }
}

/// The report of an error, line by line: a sign, and then each message on a line of
/// its own, in front of those that were there before it.
pub proof fn law_report_is_newest_first(terminator: Terminator, text: String)
    requires
        call_ensures(Terminator::report, (&terminator,), text),
    ensures
        text@ == "🛑 "@ + terminator@.fold_left(
            Seq::<char>::empty(),
            |lines: Seq<char>, message: Seq<char>| message + "\n"@ + lines,
        ),
{
    lemma_newest_first_is_fold(terminator@);
}

/// Each message goes in front of those that were there before it.
proof fn lemma_newest_first_is_fold(messages: Seq<Seq<char>>)
    ensures
        newest_first(messages) == messages.fold_left(
            Seq::<char>::empty(),
            |lines: Seq<char>, message: Seq<char>| message + "\n"@ + lines,
        ),
    decreases messages.len(),
{
    reveal_with_fuel(Seq::fold_left, 2);
    if messages.len() > 0 {
        lemma_newest_first_is_fold(messages.drop_last());
    }
}

/// An error shows the last of its messages, whoever added it. It is empty, and
/// shown as unknown, exactly where it has no message.
pub proof fn law_error_shows_its_last_message(error: Error, text: String, empty: bool)
    requires
        call_ensures(Error::to_text, (&error,), text),
        call_ensures(Error::is_empty, (&error,), empty),
    ensures
        empty <==> error@.len() == 0,
        empty ==> text@ == "unknown error"@,
        !empty ==> text@ == error@[error@.len() - 1],
{
}

} // verus!
