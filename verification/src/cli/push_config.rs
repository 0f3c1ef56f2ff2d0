//! `webman push config`: sending the settings of nodes to their servers.
use vstd::prelude::*;

verus! {

/// The node to push to, or all active nodes.
pub struct Args {
    pub node_id: Option<String>,
    pub all: bool,
}

} // verus!
