//! `webman node root` and `webman devserver`: reaching the root account of
//! a server.
use vstd::prelude::*;

verus! {

/// The node whose server to reach, and how.
pub struct Args {
    pub node_id: String,
    pub json: bool,
    pub ssh: bool,
    pub code: bool,
    pub command: bool,
    pub dir: Option<String>,
}

/// What to do once the server is known.
pub enum RootStep {
    /// Open the directory in VS Code over SSH by running this command.
    Code(String),
    /// Print this SSH command.
    PrintSsh(String),
    /// Run this SSH command, which opens a login shell in the directory.
    Ssh(String),
    /// Describe the server.
    Report,
}

/// The directory to open: the one asked for, or `/`.
pub open spec fn dir_or_root(dir: Option<String>) -> Seq<char> {
    match dir {
        Some(d) => d@,
        None => "/"@,
    }
}

/// The command that opens `dir` on the server in VS Code.
pub open spec fn code_command(root_ip: Seq<char>, dir: Seq<char>) -> Seq<char> {
    "code --remote ssh-remote+root@"@ + root_ip + " "@ + dir
}

/// The SSH command that reaches the root account of the server.
pub open spec fn ssh_prefix(root_ip: Seq<char>) -> Seq<char> {
    "ssh -o ServerAliveInterval=300 root@"@ + root_ip
}

/// The SSH command that opens a login shell in `dir`.
pub open spec fn ssh_shell_command(root_ip: Seq<char>, dir: Seq<char>) -> Seq<char> {
    ssh_prefix(root_ip) + " -t \"cd "@ + dir + " ; bash --login\" "@
}

/// The step the flags choose: VS Code first, then SSH (printed or run),
/// else a report.
pub open spec fn root_step_spec(ssh: bool, code: bool, command: bool, root_ip: Seq<char>, dir: Seq<char>) -> (int, Seq<char>) {
    if code {
        (0, code_command(root_ip, dir))
    } else if ssh {
        if command {
            (1, ssh_prefix(root_ip))
        } else {
            (2, ssh_shell_command(root_ip, dir))
        }
    } else {
        (3, Seq::empty())
    }
}

/// The flags need the server reachable with the local key: it is opened
/// in VS Code, or a shell is opened on it.
pub fn needs_key(ssh: bool, code: bool, command: bool) -> (r: bool)
    ensures
        r == (code || (ssh && !command)),
{
    code || (ssh && !command)
}

/// The command that uploads the local public key to the server.
pub fn push_key_command(root_ip: &str) -> (r: String)
    ensures
        r@ == "webman push pbk --root-ip "@ + root_ip@,
{
    let mut r = "webman push pbk --root-ip ".to_owned();
    r.append(root_ip);
    r
}

/// The step the flags choose for the server at `root_ip`.
pub fn root_step(ssh: bool, code: bool, command: bool, root_ip: &str, dir: &Option<String>) -> (r: RootStep)
    ensures
        root_step_spec(ssh, code, command, root_ip@, dir_or_root(*dir)) == match r {
            RootStep::Code(c) => (0int, c@),
            RootStep::PrintSsh(c) => (1int, c@),
            RootStep::Ssh(c) => (2int, c@),
            RootStep::Report => (3int, Seq::<char>::empty()),
        },
{
    let d = match dir {
        Some(d) => d.clone(),
        None => "/".to_owned(),
    };
    if code {
        let mut c = "code --remote ssh-remote+root@".to_owned();
        c.append(root_ip);
        c.append(" ");
        c.append(d.as_str());
        RootStep::Code(c)
    } else if ssh {
        let mut prefix = "ssh -o ServerAliveInterval=300 root@".to_owned();
        prefix.append(root_ip);
        if command {
            RootStep::PrintSsh(prefix)
        } else {
            prefix.append(" -t \"cd ");
            prefix.append(d.as_str());
            prefix.append(" ; bash --login\" ");
            RootStep::Ssh(prefix)
        }
    } else {
        RootStep::Report
    }
}

} // verus!
