//! `webman db generate-models`: writing the models of the tables.
use vstd::prelude::*;

verus! {

/// The command takes no arguments.
pub struct Args;

} // verus!
