//! `webman random characters`: a string of random letters and digits.
use vstd::prelude::*;

verus! {

/// The length of the string to draw.
pub struct Args {
    pub length: usize,
}

} // verus!
