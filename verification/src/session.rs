//! What a remote SSH session decides: the command line it runs, the
//! script that prepares a shell, and what it does with each message the
//! remote side sends.
use vstd::prelude::*;
use crate::cli::nodes::{decimal, decimal_string};

verus! {

/// `command`, run in `cwd` where one is given.
pub open spec fn finalized_spec(cwd: Option<String>, command: Seq<char>) -> Seq<char> {
    match cwd {
        Some(p) => "cd "@ + p@ + " && "@ + command,
        None => command,
    }
}

/// The command line a session runs for `command`: it first changes to
/// the session's working directory, where it has one.
pub fn finalized_command(cwd: &Option<String>, command: &str) -> (r: String)
    ensures
        r@ == finalized_spec(*cwd, command@),
{
    match cwd {
        Some(p) => {
            let mut r = "cd ".to_owned();
            r.append(p.as_str());
            r.append(" && ");
            r.append(command);
            r
        },
        None => command.to_owned(),
    }
}

/// The script that prepares an interactive shell: it sets the prompt and
/// changes directory where asked, then clears the screen; empty where
/// there is nothing to prepare.
pub open spec fn shell_init_spec(prompt: Option<Seq<char>>, cwd: Option<String>) -> Seq<char> {
    let a = match prompt {
        Some(p) => "export PS1='"@ + p + "'\n"@,
        None => Seq::empty(),
    };
    let b = match cwd {
        Some(c) => "cd \""@ + c@ + "\"\n"@,
        None => Seq::empty(),
    };
    if (a + b).len() == 0 {
        Seq::empty()
    } else {
        a + b + "clear\n"@
    }
}

/// The script that prepares an interactive shell.
pub fn shell_init_script(prompt: Option<&str>, cwd: &Option<String>) -> (r: String)
    ensures
        r@ == shell_init_spec(
            match prompt {
                Some(p) => Some(p@),
                None => None,
            },
            *cwd,
        ),
{
    let mut r = String::new();
    match prompt {
        Some(p) => {
            r.append("export PS1='");
            r.append(p);
            r.append("'\n");
        },
        None => {},
    }
    match cwd {
        Some(c) => {
            r.append("cd \"");
            r.append(c.as_str());
            r.append("\"\n");
        },
        None => {},
    }
    if !r.as_str().is_empty() {
        r.append("clear\n");
    }
    r
}

/// The shell is prepared in order: where a prompt is given the script
/// starts by setting it; where a working directory `c` is given, whatever
/// the prompt, the script ends by changing to `c` and then clearing the
/// screen; where only a prompt is given it ends with setting the prompt
/// and clearing the screen; where neither is given it is empty.
pub proof fn law_shell_init_script_prepares_in_order(prompt: Option<Seq<char>>, cwd: Option<String>)
    ensures
        ({
            let s = shell_init_spec(prompt, cwd);
            &&& (prompt matches Some(p) ==> ("export PS1='"@ + p + "'\n"@).is_prefix_of(s))
            &&& (cwd matches Some(c) ==> ("cd \""@ + c@ + "\"\nclear\n"@).is_suffix_of(s))
            &&& (cwd is None ==> (prompt matches Some(p) ==> s == "export PS1='"@ + p + "'\nclear\n"@))
            &&& (prompt is None && cwd is None ==> s.len() == 0)
            &&& (prompt is None ==> (cwd matches Some(c) ==> s == "cd \""@ + c@ + "\"\nclear\n"@))
        }),
{
    reveal_strlit("export PS1='");
    reveal_strlit("'\n");
    reveal_strlit("cd \"");
    reveal_strlit("\"\n");
    reveal_strlit("clear\n");
    reveal_strlit("'\nclear\n");
    reveal_strlit("\"\nclear\n");
    let s = shell_init_spec(prompt, cwd);
    let a = match prompt {
        Some(p) => "export PS1='"@ + p + "'\n"@,
        None => Seq::empty(),
    };
    let b = match cwd {
        Some(c) => "cd \""@ + c@ + "\"\n"@,
        None => Seq::<char>::empty(),
    };
    let z = "clear\n"@;
    if (a + b).len() > 0 {
        assert(s == a + b + z);
        assert(s =~= a + (b + z));
        assert(a =~= s.subrange(0, a.len() as int));
        if let Some(c) = cwd {
            let t = "cd \""@ + c@ + "\"\nclear\n"@;
            assert(b + z =~= t);
            assert(t =~= s.subrange(s.len() - t.len(), s.len() as int));
            if prompt is None {
                assert(s =~= t);
            }
        } else {
            assert(b + z =~= z);
            if let Some(p) = prompt {
                assert(s =~= "export PS1='"@ + p + "'\nclear\n"@);
            }
        }
    } else {
        assert(s.len() == 0);
        if let Some(p) = prompt {
            assert(a.len() > 0);
        }
        if let Some(c) = cwd {
            assert(b.len() > 0);
        }
    }
}

/// What the remote side of a shell or of the local input can bring.
pub enum ShellEvent {
    /// A line typed locally, or `None` when local input has ended.
    Input(Option<String>),
    /// Output of the remote shell.
    Data(String),
    /// Error output of the remote shell.
    ExtendedData(String),
    /// The remote shell has exited, or the channel has closed.
    Exited,
    /// Any other message.
    Other,
}

/// What a shell session does with an event.
pub enum ShellAction {
    /// Send the text to the remote shell.
    Send(String),
    /// Hand the text to the local output.
    Forward(String),
    /// End the session.
    Stop,
    /// Wait for the next event.
    Wait,
}

/// The shell session's answer to an event: local input goes to the
/// remote side until it ends, remote output comes back, and the session
/// ends when either side is done.
pub fn shell_step(event: ShellEvent) -> (r: ShellAction)
    ensures
        match event {
            ShellEvent::Input(Some(s)) => r == ShellAction::Send(s),
            ShellEvent::Input(None) => r == ShellAction::Stop,
            ShellEvent::Data(s) => r == ShellAction::Forward(s),
            ShellEvent::ExtendedData(s) => r == ShellAction::Forward(s),
            ShellEvent::Exited => r == ShellAction::Stop,
            ShellEvent::Other => r == ShellAction::Wait,
        },
{
    match event {
        ShellEvent::Input(Some(s)) => ShellAction::Send(s),
        ShellEvent::Input(None) => ShellAction::Stop,
        ShellEvent::Data(s) => ShellAction::Forward(s),
        ShellEvent::ExtendedData(s) => ShellAction::Forward(s),
        ShellEvent::Exited => ShellAction::Stop,
        ShellEvent::Other => ShellAction::Wait,
    }
}

/// What the remote side of a command can bring.
pub enum ExecEvent {
    /// Output of the command.
    Data(String),
    /// Error output of the command.
    ExtendedData(String),
    /// The command's exit status.
    ExitStatus(u32),
    /// Any other message.
    Other,
}

/// The message of a command that failed: its exit code and what it wrote.
pub open spec fn failure_spec(interactive: bool, exit_status: u32, output: Seq<char>) -> Seq<char> {
    (if interactive {
        "Interactive command failed with exit code "@
    } else {
        "Command failed with exit code "@
    }) + decimal(exit_status as nat) + ":\n"@ + output
}

/// A session's handling of a message while a command runs: output is
/// collected, and a non-zero exit status ends the command with an error
/// that carries what was collected.
pub fn exec_step(output: &mut String, event: ExecEvent, interactive: bool) -> (r: Option<String>)
    ensures
        match event {
            ExecEvent::Data(s) => final(output)@ == old(output)@ + s@ && r is None,
            ExecEvent::ExtendedData(s) => final(output)@ == old(output)@ + s@ && r is None,
            ExecEvent::ExitStatus(code) => final(output)@ == old(output)@ && if code != 0 {
                r matches Some(m) && m@ == failure_spec(interactive, code, old(output)@)
            } else {
                r is None
            },
            ExecEvent::Other => final(output)@ == old(output)@ && r is None,
        },
{
    match event {
        ExecEvent::Data(s) => {
            output.append(s.as_str());
            None
        },
        ExecEvent::ExtendedData(s) => {
            output.append(s.as_str());
            None
        },
        ExecEvent::ExitStatus(code) => {
            if code != 0 {
                let mut m = if interactive {
                    "Interactive command failed with exit code ".to_owned()
                } else {
                    "Command failed with exit code ".to_owned()
                };
                let digits = crate::text::string_from(&decimal_string(code as usize));
                m.append(digits.as_str());
                m.append(":\n");
                m.append(output.as_str());
                Some(m)
            } else {
                None
            }
        },
        ExecEvent::Other => None,
    }
}

/// `p` is an absolute path.
pub open spec fn is_absolute(p: Seq<char>) -> bool {
    p.len() > 0 && p[0] == '/'
}

/// Where an upload lands, as `PathBuf::push` joins the working directory
/// and the remote path: an absolute remote path stands alone, a relative
/// one is put under the working directory, with a separator added unless
/// the directory is empty or already ends with one.
pub open spec fn resolved_spec(cwd: Option<String>, remote_path: Seq<char>) -> Seq<char> {
    match cwd {
        Some(c) => if is_absolute(remote_path) {
            remote_path
        } else if c@.len() == 0 || c@.last() == '/' {
            c@ + remote_path
        } else {
            c@ + seq!['/'] + remote_path
        },
        None => remote_path,
    }
}

/// Where an upload of `remote_path` lands for a session working in `cwd`.
pub fn resolved_upload_path(cwd: &Option<String>, remote_path: &str) -> (r: String)
    ensures
        r@ == resolved_spec(*cwd, remote_path@),
{
    let rp = crate::text::chars_of(remote_path);
    match cwd {
        Some(c) => {
            if rp.len() > 0 && rp[0] == '/' {
                remote_path.to_owned()
            } else {
                let cc = crate::text::chars_of(c.as_str());
                let mut r = c.clone();
                if !(cc.len() == 0 || cc[cc.len() - 1] == '/') {
                    crate::text::string_push(&mut r, '/');
                }
                r.append(remote_path);
                r
            }
        },
        None => remote_path.to_owned(),
    }
}


/// A command always runs as given, at the end of the command line; with
/// a working directory the line first changes to it, and without one it
/// is the command alone.
pub proof fn law_finalized_command_runs_command(cwd: Option<String>, command: Seq<char>)
    ensures
        command.is_suffix_of(finalized_spec(cwd, command)),
        cwd matches Some(p) ==> ("cd "@ + p@ + " && "@).is_prefix_of(finalized_spec(cwd, command))
            && finalized_spec(cwd, command).len() == ("cd "@ + p@ + " && "@).len() + command.len(),
        cwd is None ==> finalized_spec(cwd, command) == command,
{
    let r = finalized_spec(cwd, command);
    if let Some(p) = cwd {
        let h = "cd "@ + p@ + " && "@;
        assert(r == h + command);
        assert(h =~= r.subrange(0, h.len() as int));
        assert(command =~= r.subrange(r.len() - command.len(), r.len() as int));
    } else {
        assert(command =~= r.subrange(0, r.len() as int));
    }
}

/// The message of a failed command names the kind of command, ends with
/// everything the command wrote after a colon and a line break, and holds
/// the exit code in between.
pub proof fn law_failure_message_carries_output(interactive: bool, exit_status: u32, output: Seq<char>)
    ensures
        (":\n"@ + output).is_suffix_of(failure_spec(interactive, exit_status, output)),
        (if interactive {
            "Interactive command failed with exit code "@
        } else {
            "Command failed with exit code "@
        } + decimal(exit_status as nat)).is_prefix_of(failure_spec(interactive, exit_status, output)),
{
    let k = if interactive {
        "Interactive command failed with exit code "@
    } else {
        "Command failed with exit code "@
    };
    let h = k + decimal(exit_status as nat);
    let t = ":\n"@ + output;
    let r = failure_spec(interactive, exit_status, output);
    assert(r =~= h + t);
    assert(h =~= r.subrange(0, h.len() as int));
    assert(t =~= r.subrange(r.len() - t.len(), r.len() as int));
}

/// An upload lands at the remote path itself where it is absolute or no
/// working directory is set; a relative path lands under the working
/// directory: the result starts with the directory, ends with the path,
/// and between them stands exactly one separator where the directory is
/// not empty.
pub proof fn law_upload_path_under_working_directory(cwd: Option<String>, remote_path: Seq<char>)
    ensures
        (cwd is None || is_absolute(remote_path)) ==> resolved_spec(cwd, remote_path) == remote_path,
        cwd matches Some(c) ==> (!is_absolute(remote_path) ==> {
            let r = resolved_spec(cwd, remote_path);
            &&& c@.is_prefix_of(r)
            &&& remote_path.is_suffix_of(r)
            &&& c@.len() == 0 ==> r == remote_path
            &&& c@.len() > 0 ==> {
                &&& r[r.len() - remote_path.len() - 1] == '/'
                &&& r.subrange(0, r.len() - remote_path.len() - 1) == c@ || r.subrange(
                    0,
                    r.len() - remote_path.len(),
                ) == c@
                &&& r.len() <= c@.len() + 1 + remote_path.len()
            }
        }),
{
    let r = resolved_spec(cwd, remote_path);
    if let Some(c) = cwd {
        if !is_absolute(remote_path) {
            let n = r.len() - remote_path.len();
            if c@.len() == 0 || c@.last() == '/' {
                assert(r == c@ + remote_path);
                if c@.len() == 0 {
                    assert(r =~= remote_path);
                }
                assert(c@ =~= r.subrange(0, c@.len() as int));
                assert(remote_path =~= r.subrange(n, r.len() as int));
                if c@.len() > 0 {
                    assert(r.subrange(0, n) =~= c@);
                    assert(r[n - 1] == c@[c@.len() - 1]);
                }
            } else {
                assert(r == c@ + seq!['/'] + remote_path);
                assert(c@ =~= r.subrange(0, c@.len() as int));
                assert(remote_path =~= r.subrange(n, r.len() as int));
                assert(r.subrange(0, n - 1) =~= c@);
                assert(r[n - 1] == '/');
            }
        }
    }
}
} // verus!
