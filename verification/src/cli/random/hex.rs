//! `webman random hex`: a string of random hexadecimal digits.
use vstd::prelude::*;

verus! {

/// The length of the string to draw.
pub struct Args {
    pub length: usize,
}

} // verus!
