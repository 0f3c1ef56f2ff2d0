//! `webman node setup`: the commands that set a node up on its server.
use vstd::prelude::*;
use crate::config::NodeData;

verus! {

/// The node to set up.
pub struct Args {
    pub node_id: String,
}

/// The command that creates the node's server block, Unix user and
/// certificate on the server.
pub fn server_block_command(node: &NodeData) -> (r: String)
    requires
        node.ssh.password is Some,
    ensures
        r@ == "lemp config server-block --add-unix-user --use-certbot -u "@ + node.ssh.username@
            + " -d \""@ + node.domain_name@ + "\" -p \""@ + node.ssh.password->0@ + "\""@,
{
    let mut r = "lemp config server-block --add-unix-user --use-certbot -u ".to_owned();
    r.append(node.ssh.username.as_str());
    r.append(" -d \"");
    r.append(node.domain_name.as_str());
    r.append("\" -p \"");
    match &node.ssh.password {
        Some(p) => r.append(p.as_str()),
        None => {},
    }
    r.append("\"");
    r
}

/// The command that configures the node's portal server block.
pub fn portal_block_command(node: &NodeData, node_id: &str) -> (r: String)
    ensures
        r@ == "portal-server config server-block -u "@ + node.ssh.username@ + " -d \""@
            + node.domain_name@ + "\" -n "@ + node_id@,
{
    let mut r = "portal-server config server-block -u ".to_owned();
    r.append(node.ssh.username.as_str());
    r.append(" -d \"");
    r.append(node.domain_name.as_str());
    r.append("\" -n ");
    r.append(node_id);
    r
}

/// The command that pushes the configuration to the node.
pub fn push_config_command(node_id: &str) -> (r: String)
    ensures
        r@ == "webman push config "@ + node_id@,
{
    let mut r = "webman push config ".to_owned();
    r.append(node_id);
    r
}

/// The command, run as the node's user, that sets the portal up with the
/// node's backup bucket.
pub fn portal_setup_command(node: &NodeData) -> (r: String)
    ensures
        r@ == "cd public_html && portal setup --bucket '"@ + node.backup.bucket@ + "' 2>&1"@,
{
    let mut r = "cd public_html && portal setup --bucket '".to_owned();
    r.append(node.backup.bucket.as_str());
    r.append("' 2>&1");
    r
}

} // verus!
