//! Local commands: what becomes of their output.
use vstd::prelude::*;
use crate::text::trim;

verus! {

/// Runs local commands.
pub struct Cmd;

impl Cmd {
    /// The outcome of a command that has run: its output, trimmed, where it
    /// succeeded; otherwise an error that carries its error output.
    pub fn run_outcome(success: bool, stdout: &str, stderr: &str) -> (r: Result<String, String>)
        ensures
            success ==> (r matches Ok(s) && s@ == trim(stdout@)),
            !success ==> (r matches Err(e) && e@ == "command failed: "@ + stderr@),
    {
        if !success {
            let mut e = "command failed: ".to_owned();
            e.append(stderr);
            return Err(e);
        }
        let t = crate::text::trim_chars(&crate::text::chars_of(stdout));
        Ok(crate::text::string_from(&t))
    }
}

} // verus!
