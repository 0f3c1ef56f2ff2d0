//! `webman node`: a node, or one of the commands on it.
use vstd::prelude::*;
use crate::cli::{add, edit, root, setup};

verus! {

/// The node to show, or the command to run.
pub struct Args {
    pub node_id: Option<String>,
    pub command: Option<Commands>,
}

/// The commands on a node.
pub enum Commands {
    Add(add::Args),
    Edit(edit::Args),
    Setup(setup::Args),
    Root(root::Args),
}

} // verus!
