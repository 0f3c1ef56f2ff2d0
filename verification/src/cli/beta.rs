//! `webman beta`: the commands on the beta node.
use vstd::prelude::*;
use crate::cli::clone;

verus! {

/// The command to run.
pub struct Args {
    pub command: Option<Commands>,
}

/// The commands on the beta node.
pub enum Commands {
    Clone(clone::Args),
}

} // verus!
