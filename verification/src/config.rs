//! Where the stack goes.

use vstd::prelude::*;

verus! {

/// The remote that is pushed to, and the branch that everything is merged into.
#[derive(Debug)]
pub struct Config {
    pub remote_name: String,
    pub master_branch: String,
}

/// What a [`Config`] says.
#[verifier::ext_equal]
pub struct ConfigView {
    pub remote_name: Seq<char>,
    pub master_branch: Seq<char>,
}

impl View for Config {
    type V = ConfigView;

    open spec fn view(&self) -> ConfigView {
        ConfigView { remote_name: self.remote_name@, master_branch: self.master_branch@ }
    }
}

/// A configuration says what it holds, field by field.
pub proof fn law_config_says_what_it_holds(config: Config)
    ensures
        config@.remote_name == config.remote_name@,
        config@.master_branch == config.master_branch@,
{
}

} // verus!
