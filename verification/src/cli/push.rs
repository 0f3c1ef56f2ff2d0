//! `webman push`: what is sent to the servers.
use vstd::prelude::*;
use crate::cli::{pbk, push_config};

verus! {

/// The command to run.
pub struct Args {
    pub command: Option<Commands>,
}

/// The things that can be pushed.
pub enum Commands {
    Pbk(pbk::Args),
    Config(push_config::Args),
}

} // verus!
