//! `spr stacked`: a pull request for every revision of the stack.
//!
//! The command runs as three machines, one inside the other. [`do_stacked`]
//! brings one branch up to date, [`handle_revs`] does so for every revision in
//! turn, and [`stacked`] is the command as a whole. Each takes its state and the
//! reply to what that state asked for, and gives the next state or the outcome.

use vstd::prelude::*;

use crate::error::Error;
use crate::text::optional;

pub mod branches;
pub mod branches_laws;
pub mod command;
pub mod command_laws;
pub mod exchange;
pub mod update;
pub mod update_laws;

pub use branches::{handle_revs, start_revs, BranchAction, Branches};
pub use command::{collect_futures, stacked, Command};
pub use exchange::{Action, Reply};
pub use update::{do_stacked, Update};

verus! {

/// What the command was told to do.
#[derive(Debug)]
pub struct StackedOptions {
    /// Message to be used for commits updating existing pull requests (e.g.
    /// 'rebase' or 'review comments')
    pub message: Option<String>,
}

/// What [`StackedOptions`] say.
#[verifier::ext_equal]
pub struct StackedOptionsView {
    pub message: Option<Seq<char>>,
}

impl View for StackedOptions {
    type V = StackedOptionsView;

    open spec fn view(&self) -> StackedOptionsView {
        StackedOptionsView { message: optional(self.message) }
    }
}

/// Where a machine stands after a reply.
#[verifier::ext_equal]
#[derive(Debug)]
pub enum Step<State, Outcome, Failure> {
    /// It waits for the reply to what the state asks for.
    Waiting(State),
    /// It is done.
    Finished(std::result::Result<Outcome, Failure>),
}

/// The messages of a failure.
pub type Trail = Seq<Seq<char>>;

/// The view of a step.
pub open spec fn step_view<State: View, Outcome: View>(
    step: Step<State, Outcome, Error>,
) -> Step<State::V, Outcome::V, Trail> {
    match step {
        Step::Waiting(state) => Step::Waiting(state@),
        Step::Finished(Ok(outcome)) => Step::Finished(Ok(outcome@)),
        Step::Finished(Err(error)) => Step::Finished(Err(error@)),
    }
}

/// The options say what they hold.
pub proof fn law_options_say_what_they_hold(opts: StackedOptions)
    ensures
        opts@.message is Some <==> opts.message is Some,
        opts.message is Some ==> opts@.message->0 == opts.message->0@,
{
}

/// A step waits, ends well or fails exactly where it says so.
pub proof fn law_step_says_what_it_holds<State: View, Outcome: View>(
    step: Step<State, Outcome, Error>,
)
    ensures
        match step {
            Step::Waiting(state) => step_view(step) == Step::<
                State::V,
                Outcome::V,
                Trail,
            >::Waiting(state@),
            Step::Finished(Ok(outcome)) => step_view(step) == Step::<
                State::V,
                Outcome::V,
                Trail,
            >::Finished(Ok(outcome@)),
            Step::Finished(Err(error)) => step_view(step) == Step::<
                State::V,
                Outcome::V,
                Trail,
            >::Finished(Err(error@)),
        },
{
}

} // verus!
