//! `webman config`: the configuration, or a command that applies it.
use vstd::prelude::*;
use crate::cli::virtual_host;

verus! {

/// The command to run, if any.
pub struct Args {
    pub command: Option<Commands>,
}

/// The commands that apply the configuration.
pub enum Commands {
    VirtualHost(virtual_host::Args),
}

} // verus!
