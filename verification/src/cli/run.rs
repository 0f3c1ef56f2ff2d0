//! `webman db migrate run`: running the migrations.
use vstd::prelude::*;

verus! {

/// The command takes no arguments.
pub struct Args;

} // verus!
