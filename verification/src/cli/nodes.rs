//! `webman nodes`: the lines and table rows that list the nodes.
use vstd::prelude::*;
use crate::config::NodeData;

verus! {

/// Which listing to print, and of which nodes.
pub struct Args {
    pub dns: bool,
    pub active: bool,
    pub table: bool,
    pub json: bool,
}

/// The digit `d` as a character.
pub open spec fn digit_char(d: nat) -> char {
    (48 + d) as char
}

/// `n` written in decimal.
pub open spec fn decimal(n: nat) -> Seq<char>
    decreases n,
{
    if n < 10 {
        seq![digit_char(n)]
    } else {
        decimal(n / 10).push(digit_char(n % 10))
    }
}

/// `n` written in decimal, as `usize::to_string` writes it.
pub fn decimal_string(n: usize) -> (r: Vec<char>)
    ensures
        r@ == decimal(n as nat),
    decreases n,
{
    let d = (48u8 + (n % 10) as u8) as char;
    if n < 10 {
        vec![d]
    } else {
        let mut v = decimal_string(n / 10);
        v.push(d);
        v
    }
}

/// How a custom domain is shown: its URL, or `None`.
pub open spec fn custom_domain_text(cd: Option<String>) -> Seq<char> {
    match cd {
        Some(d) => "https://"@ + d@,
        None => "None"@,
    }
}

/// How a custom domain is shown: its URL, or `None`.
pub fn custom_domain_display(cd: &Option<String>) -> (r: String)
    ensures
        r@ == custom_domain_text(*cd),
{
    match cd {
        Some(d) => {
            let mut r = "https://".to_owned();
            r.append(d.as_str());
            r
        },
        None => "None".to_owned(),
    }
}

/// The DNS line of a node: its domain, an arrow, and its host.
pub fn dns_line(node: &NodeData) -> (r: String)
    ensures
        r@ == node.domain_name@ + " -> "@ + node.host@,
{
    let mut r = node.domain_name.clone();
    r.append(" -> ");
    r.append(node.host.as_str());
    r
}

/// The line that describes a node.
pub fn node_line(node_id: &str, node: &NodeData) -> (r: String)
    ensures
        r@ == "Node Id: "@ + node_id@ + ", Name: "@ + node.name@ + ", Host: "@ + node.host@
            + ", Node Url: "@ + node.node_url@ + ", Custom Domain: "@ + custom_domain_text(
            node.custom_domain,
        ),
{
    let mut r = "Node Id: ".to_owned();
    r.append(node_id);
    r.append(", Name: ");
    r.append(node.name.as_str());
    r.append(", Host: ");
    r.append(node.host.as_str());
    r.append(", Node Url: ");
    r.append(node.node_url.as_str());
    r.append(", Custom Domain: ");
    let cd = custom_domain_display(&node.custom_domain);
    r.append(cd.as_str());
    r
}

/// The table row of the node at position `index` (from 0): its serial
/// number from 1, ID, app ID, name, host, URL and custom domain.
pub fn table_row(index: usize, node_id: &str, node: &NodeData) -> (r: Vec<String>)
    requires
        index < usize::MAX,
    ensures
        r@.len() == 7,
        r@[0]@ == decimal((index + 1) as nat),
        r@[1]@ == node_id@,
        r@[2]@ == node.app_id@,
        r@[3]@ == node.name@,
        r@[4]@ == node.host@,
        r@[5]@ == node.node_url@,
        r@[6]@ == custom_domain_text(node.custom_domain),
{
    let serial = crate::text::string_from(&decimal_string(index + 1));
    let mut r: Vec<String> = Vec::new();
    r.push(serial);
    r.push(node_id.to_owned());
    r.push(node.app_id.clone());
    r.push(node.name.clone());
    r.push(node.host.clone());
    r.push(node.node_url.clone());
    r.push(custom_domain_display(&node.custom_domain));
    r
}

} // verus!
