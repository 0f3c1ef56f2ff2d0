//! `webman ssh-config update`: setting the host name of a configured host.
use vstd::prelude::*;

verus! {

/// The host to update, and its new host name, if one is given.
pub struct Args {
    pub host: String,
    pub hostname: Option<String>,
}

} // verus!
