//! `webman beta clone`: installing a node's backup on the beta node.
use vstd::prelude::*;

verus! {

/// The node to clone, and how.
pub struct Args {
    pub node_id: Option<String>,
    pub extract: bool,
    pub db_only: bool,
    pub from_source: bool,
}

/// The command, run on the beta node, that installs the backup in `bucket`.
pub fn install_backup_command(bucket: &str) -> (r: String)
    ensures
        r@ == "cd public_html && portal backup install --bucket \""@ + bucket@ + "\" "@,
{
    let mut r = "cd public_html && portal backup install --bucket \"".to_owned();
    r.append(bucket);
    r.append("\" ");
    r
}

} // verus!
