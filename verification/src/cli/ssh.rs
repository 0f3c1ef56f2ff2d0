//! `webman ssh`: a login shell on a node.
use vstd::prelude::*;

verus! {

/// The node to log into, and whether to check the connection first.
pub struct Args {
    pub node_id: Option<String>,
    pub preflight: bool,
}

/// The command that opens a login shell in `home` on the SSH host `host`.
pub fn login_command(host: &str, home: &str) -> (r: String)
    ensures
        r@ == "ssh -o ServerAliveInterval=300 -t "@ + host@ + " \"cd "@ + home@ + " ; bash --login\" "@,
{
    let mut r = "ssh -o ServerAliveInterval=300 -t ".to_owned();
    r.append(host);
    r.append(" \"cd ");
    r.append(home);
    r.append(" ; bash --login\" ");
    r
}

} // verus!
