//! `webman node add`: the node that the answers describe.
use vstd::prelude::*;
use crate::config::{NodeData, NodeSsh, NodeBackup};
use crate::text::{trim, lowercase};
use crate::utils::is_alphanumeric;

verus! {

/// `webman node add` takes no arguments: it asks.
pub struct Args;

/// The domain a node gets unless another is given.
pub fn default_domain(app_id: &str) -> (r: String)
    ensures
        r@ == app_id@ + ".icitifysms.com"@,
{
    let mut r = app_id.to_owned();
    r.append(".icitifysms.com");
    r
}

/// The home directory given as an answer: trimmed, and none where blank.
pub fn home_from_answer(answer: &str) -> (r: Option<String>)
    ensures
        trim(answer@).len() == 0 ==> r is None,
        trim(answer@).len() > 0 ==> (r matches Some(h) && h@ == trim(answer@)),
{
    let t = crate::text::trim_chars(&crate::text::chars_of(answer));
    if t.len() > 0 {
        Some(crate::text::string_from(&t))
    } else {
        None
    }
}

/// The answer confirms: in lower case it is `y`.
pub fn confirmed(answer: &str) -> (r: bool)
    ensures
        r == (lowercase(answer@) == "y"@),
{
    let lower = crate::text::to_lowercase(answer);
    crate::text::str_eq(lower.as_str(), "y")
}

/// The new node described by the answers: its URLs are on its domain,
/// its backups go to a bucket named after the domain, it is active, and
/// an SSH user that is not blank gets a random password of 21 letters and
/// digits (a blank one an empty password).
pub fn new_node_data(
    node_id: &str,
    app_id: &str,
    domain_name: &str,
    host: &str,
    name: &str,
    home: Option<String>,
    ssh_username: &str,
) -> (r: NodeData)
    ensures
        r.node_id@ == node_id@,
        r.app_id@ == app_id@,
        r.name@ == name@,
        r.host@ == host@,
        r.domain_name@ == domain_name@,
        r.custom_domain is None,
        r.base_url matches Some(u) && u@ == "https://"@ + domain_name@,
        r.rel_dirname matches Some(d) && d@.len() == 0,
        r.node_url@ == "https://"@ + domain_name@,
        r.home == home,
        r.hostname is None,
        r.remote_home_dir is None,
        r.mysql is None,
        r.ssh.username@ == ssh_username@,
        r.ssh.private_key is None,
        r.ssh.password matches Some(p) && (if trim(ssh_username@).len() > 0 {
            p@.len() == 21 && forall|i: int| 0 <= i < p@.len() ==> is_alphanumeric(#[trigger] p@[i])
        } else {
            p@.len() == 0
        }),
        r.backup.bucket@ == domain_name@,
        r.backup.regulation_range == 10,
        r.timezone_offset is None,
        r.mimics is None,
        !r.dev_mode,
        r.active,
{
    let user = crate::text::chars_of(ssh_username);
    let password = if !crate::text::blank(&user) {
        crate::utils::random_characters(21)
    } else {
        String::new()
    };
    let mut url = "https://".to_owned();
    url.append(domain_name);
    NodeData {
        node_id: node_id.to_owned(),
        name: name.to_owned(),
        app_id: app_id.to_owned(),
        domain_name: domain_name.to_owned(),
        custom_domain: None,
        host: host.to_owned(),
        base_url: Some(url.clone()),
        rel_dirname: Some(String::new()),
        node_url: url,
        home,
        hostname: None,
        remote_home_dir: None,
        mysql: None,
        ssh: NodeSsh { username: ssh_username.to_owned(), password: Some(password), private_key: None },
        backup: NodeBackup { bucket: domain_name.to_owned(), regulation_range: 10 },
        timezone_offset: None,
        mimics: None,
        dev_mode: false,
        active: true,
    }
}

/// The message of the commit that records the new node.
pub fn commit_message(node_id: &str, app_id: &str, name: &str) -> (r: String)
    ensures
        r@ == "Add node "@ + node_id@ + ", app_id: "@ + app_id@ + ", name: "@ + name@,
{
    let mut r = "Add node ".to_owned();
    r.append(node_id);
    r.append(", app_id: ");
    r.append(app_id);
    r.append(", name: ");
    r.append(name);
    r
}

/// The command, run on the central server, that configures the new node.
pub fn central_configure_command(node_id: &str) -> (r: String)
    ensures
        r@ == "icitifysms-central node legacy-php configure "@ + node_id@,
{
    let mut r = "icitifysms-central node legacy-php configure ".to_owned();
    r.append(node_id);
    r
}

} // verus!
