//! `webman remote`: opening a remote directory in VS Code.
use vstd::prelude::*;

verus! {

/// The SSH host and the directory to open there.
pub struct Args {
    pub hostname: String,
    pub home: Option<String>,
}

/// The command that opens `home` (or the default directory) on `hostname`
/// in VS Code.
pub fn code_remote_command(hostname: &str, home: &Option<String>) -> (r: String)
    ensures
        r@ == "code --remote ssh-remote+"@ + hostname@ + " "@ + match home {
            Some(h) => h@,
            None => Seq::<char>::empty(),
        },
{
    let mut r = "code --remote ssh-remote+".to_owned();
    r.append(hostname);
    r.append(" ");
    match home {
        Some(h) => r.append(h.as_str()),
        None => {},
    }
    r
}

} // verus!
