//! `webman db`: the commands on the configuration database.
use vstd::prelude::*;
use crate::cli::{generate_models, migrate};

verus! {

/// The command to run, if any.
pub struct Args {
    pub command: Option<Commands>,
}

/// The commands on the configuration database.
pub enum Commands {
    Migrate(migrate::Args),
    GenerateModels(generate_models::Args),
}

} // verus!
