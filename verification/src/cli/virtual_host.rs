//! `webman config virtual-host`: the command that configures a node's
//! virtual host.
use vstd::prelude::*;
use crate::config::NodeData;

verus! {

/// The node to configure, or all active nodes, and whether only to print.
pub struct Args {
    pub node_id: Option<String>,
    pub all: bool,
    pub dry_run: bool,
}

/// The command that configures the virtual host of the node `node_id`.
pub fn virtual_host_command(node: &NodeData, node_id: &str) -> (r: String)
    ensures
        r@ == "wpanel config virtual-host -u \""@ + node.ssh.username@ + "\" -d \""@
            + node.domain_name@ + "\" -n \""@ + node_id@ + "\" --use-certbot"@,
{
    let mut r = "wpanel config virtual-host -u \"".to_owned();
    r.append(node.ssh.username.as_str());
    r.append("\" -d \"");
    r.append(node.domain_name.as_str());
    r.append("\" -n \"");
    r.append(node_id);
    r.append("\" --use-certbot");
    r
}

/// The title lines printed before each node when all nodes are configured.
pub fn header_lines(name: &str, node_id: &str) -> (r: Vec<String>)
    ensures
        r@.len() == 3,
        r@[0]@ == "### ----------------------------------------------------------"@,
        r@[1]@ == "###               "@ + name@ + " ("@ + node_id@ + ")"@,
        r@[2]@ == "### ----------------------------------------------------------"@,
{
    let rule = "### ----------------------------------------------------------".to_owned();
    let mut title = "###               ".to_owned();
    title.append(name);
    title.append(" (");
    title.append(node_id);
    title.append(")");
    let mut r: Vec<String> = Vec::new();
    r.push(rule.clone());
    r.push(title);
    r.push(rule);
    r
}

} // verus!
