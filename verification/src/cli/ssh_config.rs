//! `webman ssh-config`: the commands on the local SSH configuration.
use vstd::prelude::*;
use crate::cli::update;

verus! {

/// The command to run.
pub struct Args {
    pub command: Option<Commands>,
}

/// The commands on the local SSH configuration.
pub enum Commands {
    Update(update::Args),
}

} // verus!
