//! `webman db migrate`: the migrations of the configuration database.
use vstd::prelude::*;
use crate::cli::run;

verus! {

/// The command to run, if any.
pub struct Args {
    pub command: Option<Commands>,
}

/// The commands on the migrations.
pub enum Commands {
    Run(run::Args),
}

} // verus!
