//! `webman servers`: listing the servers.
use vstd::prelude::*;

verus! {

/// Whether to list the servers as JSON.
pub struct Args {
    pub json: bool,
}

} // verus!
