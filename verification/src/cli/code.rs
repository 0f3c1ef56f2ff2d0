//! `webman code`: the files that let VS Code reach a node over SSH.
use vstd::prelude::*;

verus! {

/// The node to open, and whether to say what is done.
pub struct Args {
    pub node_id: Option<String>,
    pub verbose: bool,
}

/// The SSH configuration VS Code uses to reach the node.
pub fn vscode_ssh_config(host: &str, host_name: &str, user: &str, identity_file: &str) -> (r: String)
    ensures
        r@ == crate::ssh_config::host_block_text(host@, host_name@, user@, identity_file@),
{
    let mut r = "Host ".to_owned();
    r.append(host);
    r.append("\n\tHostName ");
    r.append(host_name);
    r.append("\n\tUser ");
    r.append(user);
    r.append("\n\tIdentityFile ");
    r.append(identity_file);
    r.append("\n\tIdentitiesOnly yes\n");
    proof {
        reveal_strlit("Host ");
        reveal_strlit("\n\tHostName ");
        reveal_strlit("\n\tUser ");
        reveal_strlit("\n\tIdentityFile ");
        reveal_strlit("\n\tIdentitiesOnly yes\n");
        assert(r@ =~= crate::ssh_config::host_block_text(host@, host_name@, user@, identity_file@));
    }
    r
}

/// The VS Code settings that point it at that SSH configuration.
pub fn vscode_settings(ssh_config_file: &str) -> (r: String)
    ensures
        r@ == "{\"remote.SSH.configFile\": \""@ + ssh_config_file@ + "\"}"@,
{
    let mut r = "{\"remote.SSH.configFile\": \"".to_owned();
    r.append(ssh_config_file);
    r.append("\"}");
    r
}

/// The argument that tells VS Code which SSH host to open.
pub fn remote_argument(host: &str) -> (r: String)
    ensures
        r@ == "--remote=ssh-remote+"@ + host@,
{
    let mut r = "--remote=ssh-remote+".to_owned();
    r.append(host);
    r
}

} // verus!
