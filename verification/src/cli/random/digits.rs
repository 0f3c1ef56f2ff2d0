//! `webman random digits`: a string of random decimal digits.
use vstd::prelude::*;

verus! {

/// The length of the string to draw.
pub struct Args {
    pub length: usize,
}

} // verus!
