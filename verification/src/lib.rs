//! The decisions behind `spr stacked`: which pull request branches a stack of
//! revisions needs, what is committed and pushed to each of them, and what is
//! said about it.
//!
//! Nothing here touches a repository, a terminal or the network. The command is
//! a state machine: it says what it wants done next, and is told how that went.

pub mod config;
pub mod error;
pub mod github;
pub mod jj;
pub mod message;
pub mod oid;
pub mod stacked;
pub mod text;
