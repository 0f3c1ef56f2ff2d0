//! The nodes, servers and custom domains that the configuration database
//! describes, and the paths derived from them.
use vstd::prelude::*;
use vstd::utf8::{decode_utf8, encode_utf8, is_char_boundary};
use indexmap::IndexMap;
use crate::tables::{Nodes, Servers};

verus! {

/// The directory under which the certificates of custom domains are kept.
pub const SSL_ROOT_PARENT: &'static str = "/etc/ssl/icitifysms";

/// The project itself.
pub struct App;

/// The configuration database of the project.
pub struct ConfigDb;

impl App {
    /// The configuration database file of the project rooted at `document_root`.
    pub fn config_file(document_root: &str) -> (r: String)
        ensures
            r@ == document_root@ + "/.webman/config.db"@,
    {
        let mut r = document_root.to_owned();
        r.append("/.webman/config.db");
        r
    }
}

impl ConfigDb {
    /// The SQLite connection URL of the configuration database of the
    /// project rooted at `document_root`.
    pub fn connection_url(document_root: &str) -> (r: String)
        ensures
            r@ == "sqlite://"@ + document_root@ + "/.webman/config.db"@,
    {
        let mut r = "sqlite://".to_owned();
        r.append(document_root);
        r.append("/.webman/config.db");
        r
    }
}

/// How a node is reached over SSH.
#[derive(Clone)]
pub struct NodeSsh {
    pub username: String,
    pub password: Option<String>,
    pub private_key: Option<String>,
}

/// The MySQL account of a node.
#[derive(Clone)]
pub struct NodeMySql {
    pub username: Option<String>,
    pub password: Option<String>,
    pub database: Option<String>,
    pub databases: Option<Vec<String>>,
    pub phpmyadmin_auth_key: Option<String>,
}

/// Where and how often a node is backed up.
#[derive(Clone)]
pub struct NodeBackup {
    pub bucket: String,
    pub regulation_range: u32,
}

/// A node: one deployed application.
#[derive(Clone)]
pub struct NodeData {
    pub node_id: String,
    pub app_id: String,
    pub name: String,
    pub host: String,
    pub hostname: Option<String>,
    pub home: Option<String>,
    pub rel_dirname: Option<String>,
    pub remote_home_dir: Option<String>,
    pub domain_name: String,
    pub custom_domain: Option<String>,
    pub base_url: Option<String>,
    pub node_url: String,
    pub ssh: NodeSsh,
    pub mysql: Option<NodeMySql>,
    pub backup: NodeBackup,
    pub timezone_offset: Option<i64>,
    pub mimics: Option<String>,
    pub active: bool,
    pub dev_mode: bool,
}

/// A server that hosts nodes.
#[derive(Clone)]
pub struct ServerData {
    pub root_ip: String,
    pub username: String,
    pub password: String,
    pub hostname: String,
    pub provider: String,
}

/// The node that tests run against.
#[derive(Clone)]
pub struct Test {
    pub node_id: String,
    pub active: bool,
}

/// The identity that git commits carry.
#[derive(Clone)]
pub struct GitConfigUser {
    pub name: String,
    pub email: String,
}

/// The git configuration of the project.
#[derive(Clone)]
pub struct GitConfig {
    pub user: GitConfigUser,
}

/// The git settings of the project.
#[derive(Clone)]
pub struct Git {
    pub config: GitConfig,
}

/// A custom domain served by a node.
pub struct CustomDomainData {
    pub domain_name: String,
    pub node_id: String,
    pub active: bool,
}

/// A custom domain of a node, with the paths of its certificate.
pub struct CustomDomain {
    pub domain_name: String,
    pub node_id: String,
}

impl NodeData {
    /// The host name under which the node is known to SSH: the configured
    /// one, or else the SSH user and the host joined by an underscore.
    pub open spec fn hostname_spec(self) -> Seq<char> {
        match self.hostname {
            Some(h) => h@,
            None => self.ssh.username@ + seq!['_'] + self.host@,
        }
    }

    /// The home directory of the node's SSH user.
    pub open spec fn remote_dir_spec(self) -> Seq<char> {
        "/home/"@ + self.ssh.username@
    }

    /// The directory the node is served from: its configured home, or else
    /// `public_html` in the home directory of its SSH user.
    pub open spec fn remote_node_dir_spec(self) -> Seq<char> {
        match self.home {
            Some(h) => h@,
            None => self.remote_dir_spec() + "/public_html"@,
        }
    }

    /// The host name under which the node is known to SSH.
    pub fn hostname(&self) -> (r: String)
        ensures
            r@ == self.hostname_spec(),
    {
        match &self.hostname {
            Some(h) => h.clone(),
            None => {
                let mut r = self.ssh.username.clone();
                crate::text::string_push(&mut r, '_');
                r.append(self.host.as_str());
                r
            },
        }
    }

    /// The home directory of the node's SSH user.
    pub fn remote_dir(&self) -> (r: String)
        ensures
            r@ == self.remote_dir_spec(),
    {
        let mut r = "/home/".to_owned();
        r.append(self.ssh.username.as_str());
        r
    }

    /// The directory the node is served from.
    pub fn remote_node_dir(&self) -> (r: String)
        ensures
            r@ == self.remote_node_dir_spec(),
    {
        match &self.home {
            Some(h) => h.clone(),
            None => {
                let mut r = self.remote_dir();
                r.append("/public_html");
                r
            },
        }
    }

    /// A node from its database row, with the SSH, MySQL and backup
    /// settings that the row holds as JSON already read: the row's flags
    /// become booleans (1 is true, anything else or nothing false), and the
    /// home directory and base URL are left unset.
    pub fn from_db_row(row: Nodes, ssh: NodeSsh, mysql: Option<NodeMySql>, backup: NodeBackup) -> (r:
        NodeData)
        ensures
            r.node_id == row.node_id,
            r.app_id == row.app_id,
            r.name == row.name,
            r.host == row.host,
            r.hostname == row.hostname,
            r.home is None,
            r.rel_dirname == row.rel_dirname,
            r.remote_home_dir == row.remote_home_dir,
            r.domain_name == row.domain_name,
            r.custom_domain == row.custom_domain,
            r.base_url is None,
            r.node_url == row.node_url,
            r.ssh == ssh,
            r.mysql == mysql,
            r.backup == backup,
            r.timezone_offset == match row.timezone_offset {
                Some(o) => Some(o as i64),
                None => None::<i64>,
            },
            r.mimics == row.mimics,
            r.active == (row.active == Some(1i32)),
            r.dev_mode == (row.dev_mode == Some(1i32)),
    {
        let timezone_offset = match row.timezone_offset {
            Some(o) => Some(o as i64),
            None => None,
        };
        let active = match row.active {
            Some(a) => a == 1,
            None => false,
        };
        let dev_mode = match row.dev_mode {
            Some(d) => d == 1,
            None => false,
        };
        NodeData {
            node_id: row.node_id,
            app_id: row.app_id,
            name: row.name,
            host: row.host,
            hostname: row.hostname,
            home: None,
            rel_dirname: row.rel_dirname,
            remote_home_dir: row.remote_home_dir,
            domain_name: row.domain_name,
            custom_domain: row.custom_domain,
            base_url: None,
            node_url: row.node_url,
            ssh,
            mysql,
            backup,
            timezone_offset,
            mimics: row.mimics,
            active,
            dev_mode,
        }
    }
}

impl ServerData {
    /// A server from its database row: a missing password, host name or
    /// provider becomes empty.
    pub fn from_db_row(row: Servers) -> (r: ServerData)
        ensures
            r.root_ip == row.ip,
            r.username == row.username,
            r.password@ == match row.password {
                Some(p) => p@,
                None => Seq::<char>::empty(),
            },
            r.hostname@ == match row.hostname {
                Some(h) => h@,
                None => Seq::<char>::empty(),
            },
            r.provider@ == match row.provider {
                Some(p) => p@,
                None => Seq::<char>::empty(),
            },
    {
        ServerData {
            root_ip: row.ip,
            username: row.username,
            password: match row.password {
                Some(p) => p,
                None => String::new(),
            },
            hostname: match row.hostname {
                Some(h) => h,
                None => String::new(),
            },
            provider: match row.provider {
                Some(p) => p,
                None => String::new(),
            },
        }
    }
}

/// The first three bytes of the node ID, read as characters.
pub open spec fn ssl_key(node_id: Seq<char>) -> Seq<char> {
    decode_utf8(encode_utf8(node_id).take(3))
}

impl CustomDomain {
    /// The custom domain `domain_name` of the node `node_id`.
    pub fn new(domain_name: &str, node_id: &str) -> (r: CustomDomain)
        ensures
            r.domain_name@ == domain_name@,
            r.node_id@ == node_id@,
    {
        CustomDomain { domain_name: domain_name.to_owned(), node_id: node_id.to_owned() }
    }

    /// The directory of the certificate: under the SSL root, the first
    /// three bytes of the node ID, then the domain name.
    pub open spec fn ssl_dir_spec(self) -> Seq<char> {
        SSL_ROOT_PARENT@ + seq!['/'] + ssl_key(self.node_id@) + seq!['/'] + self.domain_name@
    }

    /// The directory of the certificate. The node ID must be at least three
    /// bytes long, with a character ending at the third byte.
    pub fn ssl_dir(&self) -> (r: String)
        requires
            encode_utf8(self.node_id@).len() >= 3,
            is_char_boundary(encode_utf8(self.node_id@), 3),
        ensures
            r@ == self.ssl_dir_spec(),
    {
        let id = self.node_id.as_str();
        let (key, _rest) = id.split_at(3);
        proof {
            vstd::utf8::encode_utf8_decode_utf8(key@);
        }
        let mut r = SSL_ROOT_PARENT.to_owned();
        crate::text::string_push(&mut r, '/');
        r.append(key);
        crate::text::string_push(&mut r, '/');
        r.append(self.domain_name.as_str());
        r
    }

    /// The path of the certificate's private key.
    pub fn ssl_key_path(&self) -> (r: String)
        requires
            encode_utf8(self.node_id@).len() >= 3,
            is_char_boundary(encode_utf8(self.node_id@), 3),
        ensures
            r@ == self.ssl_dir_spec() + "/key.pem"@,
    {
        let mut r = self.ssl_dir();
        r.append("/key.pem");
        r
    }

    /// The path of the certificate.
    pub fn ssl_cert_path(&self) -> (r: String)
        requires
            encode_utf8(self.node_id@).len() >= 3,
            is_char_boundary(encode_utf8(self.node_id@), 3),
        ensures
            r@ == self.ssl_dir_spec() + "/cert.pem"@,
    {
        let mut r = self.ssl_dir();
        r.append("/cert.pem");
        r
    }

    /// The custom domains of the given nodes, in the nodes' order: one for
    /// each node that has a custom domain, with that node's ID and
    /// whether it is active.
    pub fn list_from_cache(nodes: &IndexMap<String, NodeData>) -> (r: Vec<CustomDomainData>)
        ensures
            domains_view(r@) == domains_of(node_map_entries(*nodes).map_values(
                |e: (Seq<char>, NodeData)| e.1,
            )),
    {
        let values = node_map_values(nodes);
        let ghost vs = node_map_entries(*nodes).map_values(|e: (Seq<char>, NodeData)| e.1);
        let mut out: Vec<CustomDomainData> = Vec::new();
        let mut i: usize = 0;
        while i < values.len()
            invariant
                values@ == vs,
                i <= values.len(),
                domains_view(out@) == domains_of(vs.take(i as int)),
            decreases values.len() - i,
        {
            let node = &values[i];
            proof {
                assert(vs.take(i + 1).drop_last() =~= vs.take(i as int));
                assert(vs.take(i + 1).last() == *node);
            }
            match &node.custom_domain {
                Some(domain_name) => {
                    let ghost before = out@;
                    out.push(
                        CustomDomainData {
                            domain_name: domain_name.clone(),
                            node_id: node.node_id.clone(),
                            active: node.active,
                        },
                    );
                    proof {
                        assert(domains_view(out@) =~= domains_view(before).push(
                            (domain_name@, node.node_id@, node.active),
                        ));
                    }
                },
                None => {},
            }
            i = i + 1;
        }
        proof {
            assert(vs.take(values.len() as int) =~= vs);
        }
        out
    }

    /// The domains whose node is active and whose certificate files are in
    /// place: `certificates_present[i]` tells whether both the key and the
    /// certificate of `domains[i]` exist.
    pub fn active_domains(domains: &Vec<CustomDomainData>, certificates_present: &Vec<bool>) -> (r:
        Vec<CustomDomainData>)
        requires
            domains.len() == certificates_present.len(),
        ensures
            domains_view(r@) == keep_active(domains_view(domains@), certificates_present@),
            domains_view(r@) == with_presence(domains_view(domains@), certificates_present@).filter(
                active_with_certificates(),
            ).map_values(domain_of()),
    {
        let ghost dv = domains_view(domains@);
        let mut out: Vec<CustomDomainData> = Vec::new();
        let mut i: usize = 0;
        while i < domains.len()
            invariant
                dv == domains_view(domains@),
                i <= domains.len(),
                domains.len() == certificates_present.len(),
                domains_view(out@) == keep_active(dv.take(i as int), certificates_present@.take(i as int)),
            decreases domains.len() - i,
        {
            proof {
                assert(dv.take(i + 1).drop_last() =~= dv.take(i as int));
                assert(certificates_present@.take(i + 1).drop_last() =~= certificates_present@.take(i as int));
                assert(dv.take(i + 1).last() == dv[i as int]);
            }
            let d = &domains[i];
            if d.active && certificates_present[i] {
                let ghost before = out@;
                out.push(
                    CustomDomainData {
                        domain_name: d.domain_name.clone(),
                        node_id: d.node_id.clone(),
                        active: d.active,
                    },
                );
                proof {
                    assert(domains_view(out@) =~= domains_view(before).push(dv[i as int]));
                }
            }
            i = i + 1;
        }
        proof {
            assert(dv.take(domains.len() as int) =~= dv);
            assert(certificates_present@.take(domains.len() as int) =~= certificates_present@);
            law_active_domains_filter(dv, certificates_present@);
        }
        out
    }
}

/// The domain name, node ID and activity of each custom domain.
pub open spec fn domains_view(v: Seq<CustomDomainData>) -> Seq<(Seq<char>, Seq<char>, bool)> {
    v.map_values(|d: CustomDomainData| (d.domain_name@, d.node_id@, d.active))
}

/// The custom domains of the nodes `ns`, in order.
pub open spec fn domains_of(ns: Seq<NodeData>) -> Seq<(Seq<char>, Seq<char>, bool)>
    decreases ns.len(),
{
    if ns.len() == 0 {
        Seq::empty()
    } else {
        let p = domains_of(ns.drop_last());
        match ns.last().custom_domain {
            Some(d) => p.push((d@, ns.last().node_id@, ns.last().active)),
            None => p,
        }
    }
}

/// The domains `ds[i]` that are active and for which `present[i]` holds.
pub open spec fn keep_active(ds: Seq<(Seq<char>, Seq<char>, bool)>, present: Seq<bool>) -> Seq<
    (Seq<char>, Seq<char>, bool),
>
    decreases ds.len(),
{
    if ds.len() == 0 || present.len() == 0 {
        Seq::empty()
    } else {
        let p = keep_active(ds.drop_last(), present.drop_last());
        if ds.last().2 && present.last() {
            p.push(ds.last())
        } else {
            p
        }
    }
}

/// The node has a custom domain.
pub open spec fn has_custom_domain() -> spec_fn(NodeData) -> bool {
    |n: NodeData| n.custom_domain is Some
}

/// The custom domain of a node, with the node's ID and activity.
pub open spec fn custom_domain_of() -> spec_fn(NodeData) -> (Seq<char>, Seq<char>, bool) {
    |n: NodeData| (n.custom_domain.unwrap()@, n.node_id@, n.active)
}

/// The custom domains listed are exactly those of the nodes that have
/// one, in the nodes' order, each with its node's ID and activity.
pub proof fn law_domains_of_filter(ns: Seq<NodeData>)
    ensures
        domains_of(ns) == ns.filter(has_custom_domain()).map_values(custom_domain_of()),
    decreases ns.len(),
{
    reveal(Seq::filter);
    if ns.len() > 0 {
        law_domains_of_filter(ns.drop_last());
        let f = ns.drop_last().filter(has_custom_domain());
        if ns.last().custom_domain is Some {
            assert(f.push(ns.last()).map_values(custom_domain_of()) =~= f.map_values(custom_domain_of()).push(
                (ns.last().custom_domain.unwrap()@, ns.last().node_id@, ns.last().active),
            ));
        }
    } else {
        assert(ns.filter(has_custom_domain()).map_values(custom_domain_of()) =~= Seq::<
            (Seq<char>, Seq<char>, bool),
        >::empty());
    }
}

/// Each domain paired with whether its certificate files are present.
pub open spec fn with_presence(ds: Seq<(Seq<char>, Seq<char>, bool)>, present: Seq<bool>) -> Seq<
    ((Seq<char>, Seq<char>, bool), bool),
> {
    Seq::new(ds.len(), |i: int| (ds[i], present[i]))
}

/// The domain is active and its certificate files are present.
pub open spec fn active_with_certificates() -> spec_fn(((Seq<char>, Seq<char>, bool), bool)) -> bool {
    |e: ((Seq<char>, Seq<char>, bool), bool)| e.0.2 && e.1
}

/// The domain of a pair.
pub open spec fn domain_of() -> spec_fn(((Seq<char>, Seq<char>, bool), bool)) -> (Seq<char>, Seq<char>, bool) {
    |e: ((Seq<char>, Seq<char>, bool), bool)| e.0
}

/// The domains kept are exactly the domains that are active and whose
/// certificate files are present, in their order: whether `ds[i]` is kept
/// depends on `ds[i]` and `present[i]` alone, not on the domains before or
/// after it.
pub proof fn law_active_domains_filter(ds: Seq<(Seq<char>, Seq<char>, bool)>, present: Seq<bool>)
    requires
        ds.len() == present.len(),
    ensures
        keep_active(ds, present) == with_presence(ds, present).filter(active_with_certificates()).map_values(
            domain_of(),
        ),
    decreases ds.len(),
{
    reveal(Seq::filter);
    let z = with_presence(ds, present);
    if ds.len() > 0 {
        law_active_domains_filter(ds.drop_last(), present.drop_last());
        assert(z.drop_last() =~= with_presence(ds.drop_last(), present.drop_last()));
        let f = z.drop_last().filter(active_with_certificates());
        assert(z.last() == (ds.last(), present.last()));
        if ds.last().2 && present.last() {
            assert(f.push(z.last()).map_values(domain_of()) =~= f.map_values(domain_of()).push(ds.last()));
        }
    } else {
        assert(z.filter(active_with_certificates()).map_values(domain_of()) =~= Seq::<(Seq<char>, Seq<char>, bool)>::empty());
    }
}

/// The nodes of the map, keyed by node ID, in the map's order.
pub uninterp spec fn node_map_entries(m: IndexMap<String, NodeData>) -> Seq<(Seq<char>, NodeData)>;

/// Clones the values of the map, in order, with `IndexMap::values`.
/// Claimed: the vector holds the map's values in its order (the clone of
/// a `NodeData` is field for field the same).
#[verifier::external_body]
pub(crate) fn node_map_values(m: &IndexMap<String, NodeData>) -> (r: Vec<NodeData>)
    ensures
        r@ == node_map_entries(*m).map_values(|e: (Seq<char>, NodeData)| e.1),
{
    m.values().cloned().collect()
}

/// Clones the keys of the map, in order, with `IndexMap::keys`. Claimed:
/// the vector holds the map's keys in its order.
#[verifier::external_body]
pub(crate) fn node_map_keys(m: &IndexMap<String, NodeData>) -> (r: Vec<String>)
    ensures
        r@.map_values(|k: String| k@) == node_map_entries(*m).map_values(|e: (Seq<char>, NodeData)| e.0),
{
    m.keys().cloned().collect()
}

/// The keys of the entries whose node is active, in order.
pub open spec fn active_keys(es: Seq<(Seq<char>, NodeData)>) -> Seq<Seq<char>>
    decreases es.len(),
{
    if es.len() == 0 {
        Seq::empty()
    } else {
        let p = active_keys(es.drop_last());
        if es.last().1.active {
            p.push(es.last().0)
        } else {
            p
        }
    }
}

/// The IDs under which the active nodes of `nodes` are kept, in the map's
/// order.
pub fn active_node_ids(nodes: &IndexMap<String, NodeData>) -> (r: Vec<String>)
    ensures
        r@.map_values(|k: String| k@) == active_keys(node_map_entries(*nodes)),
{
    let keys = node_map_keys(nodes);
    let values = node_map_values(nodes);
    let ghost es = node_map_entries(*nodes);
    let mut out: Vec<String> = Vec::new();
    let mut i: usize = 0;
    proof {
        assert(keys@.len() == es.len() && values@.len() == es.len()) by {
            assert(keys@.map_values(|k: String| k@).len() == keys@.len());
        }
    }
    while i < values.len()
        invariant
            keys@.map_values(|k: String| k@) == es.map_values(|e: (Seq<char>, NodeData)| e.0),
            values@ == es.map_values(|e: (Seq<char>, NodeData)| e.1),
            keys@.len() == es.len(),
            values@.len() == es.len(),
            i <= values.len(),
            out@.map_values(|k: String| k@) == active_keys(es.take(i as int)),
        decreases values.len() - i,
    {
        proof {
            assert(es.take(i + 1).drop_last() =~= es.take(i as int));
            assert(es.take(i + 1).last() == es[i as int]);
            assert(values@[i as int] == es[i as int].1);
            assert(keys@.map_values(|k: String| k@)[i as int] == es[i as int].0);
        }
        if values[i].active {
            let ghost before = out@;
            out.push(keys[i].clone());
            proof {
                assert(out@.map_values(|k: String| k@) =~= before.map_values(|k: String| k@).push(
                    es[i as int].0,
                ));
            }
        }
        i = i + 1;
    }
    proof {
        assert(es.take(values.len() as int) =~= es);
    }
    out
}

} // verus!

verus! {

impl App {
    /// The extension of a new temporary file: the one given after a dot,
    /// or none.
    pub fn tmp_extension(file_extension: &str) -> (r: String)
        ensures
            r@ == if file_extension@.len() == 0 {
                Seq::<char>::empty()
            } else {
                seq!['.'] + file_extension@
            },
    {
        if file_extension.is_empty() {
            String::new()
        } else {
            let mut r = String::new();
            crate::text::string_push(&mut r, '.');
            r.append(file_extension);
            r
        }
    }

    /// The temporary directory of the project rooted at `document_root`:
    /// `tmp` joined to it the way `PathBuf` joins a relative path.
    pub fn tmp_directory_path(document_root: &str) -> (r: String)
        ensures
            r@ == if document_root@.len() == 0 || document_root@.last() == '/' {
                document_root@ + "tmp"@
            } else {
                document_root@ + seq!['/'] + "tmp"@
            },
    {
        let root = Some(document_root.to_owned());
        let r = crate::session::resolved_upload_path(&root, "tmp");
        proof {
            reveal_strlit("tmp");
            assert(!crate::session::is_absolute("tmp"@));
        }
        r
    }

    /// The path of the file `name` in the directory `dir`.
    pub fn path_in(dir: &str, name: &str) -> (r: String)
        ensures
            r@ == dir@ + seq!['/'] + name@,
    {
        let mut r = dir.to_owned();
        crate::text::string_push(&mut r, '/');
        r.append(name);
        r
    }
}

/// The name under which the nodes' configuration is published: the one
/// stored, or `webman.config`.
pub fn nodes_config_name_or_default(stored: Option<String>) -> (r: String)
    ensures
        r@ == match stored {
            Some(s) => s@,
            None => "webman.config"@,
        },
{
    match stored {
        Some(s) => s,
        None => "webman.config".to_owned(),
    }
}

/// The private keys looked for in the SSH directory, in order of preference.
pub fn default_key_candidates(ssh_dir: &str) -> (r: Vec<String>)
    ensures
        r@.len() == 4,
        r@[0]@ == ssh_dir@ + "/id_ed25519"@,
        r@[1]@ == ssh_dir@ + "/id_ecdsa"@,
        r@[2]@ == ssh_dir@ + "/id_rsa"@,
        r@[3]@ == ssh_dir@ + "/id_dsa"@,
{
    let mut r: Vec<String> = Vec::new();
    let mut a = ssh_dir.to_owned();
    a.append("/id_ed25519");
    r.push(a);
    let mut b = ssh_dir.to_owned();
    b.append("/id_ecdsa");
    r.push(b);
    let mut c = ssh_dir.to_owned();
    c.append("/id_rsa");
    r.push(c);
    let mut d = ssh_dir.to_owned();
    d.append("/id_dsa");
    r.push(d);
    r
}

} // verus!

verus! {

/// The private key to use: the first of the candidates in `ssh_dir`, in
/// the order [`default_key_candidates`] gives them, that `is_file` says is
/// a file; `None` where it says so of none.
pub fn first_existing_key<F: Fn(&str) -> bool>(ssh_dir: &str, is_file: F) -> (r: Option<String>)
    requires
        forall|p: &str| #[trigger] is_file.requires((p,)),
    ensures
        ({
            let names = seq!["/id_ed25519"@, "/id_ecdsa"@, "/id_rsa"@, "/id_dsa"@];
            match r {
                Some(k) => exists|j: int|
                    0 <= j < 4 && k@ == ssh_dir@ + names[j] && crate::utils::answered(is_file, k@, true)
                        && forall|m: int| 0 <= m < j ==> crate::utils::answered(is_file, ssh_dir@ + names[m], false),
                None => forall|m: int| 0 <= m < 4 ==> crate::utils::answered(is_file, ssh_dir@ + names[m], false),
            }
        }),
{
    let candidates = default_key_candidates(ssh_dir);
    let ghost names = seq!["/id_ed25519"@, "/id_ecdsa"@, "/id_rsa"@, "/id_dsa"@];
    let mut i: usize = 0;
    while i < candidates.len()
        invariant
            names == seq!["/id_ed25519"@, "/id_ecdsa"@, "/id_rsa"@, "/id_dsa"@],
            candidates@.len() == 4,
            forall|m: int| 0 <= m < 4 ==> #[trigger] candidates@[m]@ == ssh_dir@ + names[m],
            i <= 4,
            forall|p: &str| #[trigger] is_file.requires((p,)),
            forall|m: int| 0 <= m < i ==> crate::utils::answered(is_file, ssh_dir@ + names[m], false),
        decreases candidates.len() - i,
    {
        let p = candidates[i].as_str();
        let found = is_file(p);
        proof {
            assert(candidates@[i as int]@ == ssh_dir@ + names[i as int]);
            assert(crate::utils::answered(is_file, p@, found));
        }
        if found {
            let k = candidates[i].clone();
            proof {
                assert(0 <= i < 4 && k@ == ssh_dir@ + names[i as int]);
            }
            return Some(k);
        }
        i = i + 1;
    }
    None
}

} // verus!

verus! {

/// The position of the last `/` in `p`, if there is one.
pub open spec fn last_slash(p: Seq<char>) -> Option<int>
    decreases p.len(),
{
    if p.len() == 0 {
        None
    } else if p.last() == '/' {
        Some(p.len() - 1)
    } else {
        last_slash(p.drop_last())
    }
}

/// The directory that holds `p`: the text before its last `/`, or `/`
/// where that text is empty or `p` holds no `/`.
pub open spec fn parent_dir(p: Seq<char>) -> Seq<char> {
    match last_slash(p) {
        Some(k) => if k > 0 {
            p.take(k)
        } else {
            seq!['/']
        },
        None => seq!['/'],
    }
}

/// `cwd` with `parent_dir` taken `n` times.
pub open spec fn ancestor(cwd: Seq<char>, n: nat) -> Seq<char>
    decreases n,
{
    if n == 0 {
        cwd
    } else {
        parent_dir(ancestor(cwd, (n - 1) as nat))
    }
}

/// The configuration database file of the project rooted at `d`.
pub open spec fn config_path(d: Seq<char>) -> Seq<char> {
    d + "/.webman/config.db"@
}

proof fn lemma_last_slash(p: Seq<char>)
    ensures
        match last_slash(p) {
            Some(k) => 0 <= k < p.len() && p[k] == '/',
            None => true,
        },
    decreases p.len(),
{
    if p.len() > 0 && p.last() != '/' {
        lemma_last_slash(p.drop_last());
    }
}

/// The directory that holds `p`.
pub fn dirname(p: &str) -> (r: String)
    ensures
        r@ == parent_dir(p@),
{
    let cs = crate::text::chars_of(p);
    let mut i: usize = cs.len();
    proof {
        assert(cs@.take(i as int) =~= cs@);
    }
    while i > 0 && cs[i - 1] != '/'
        invariant
            i <= cs.len(),
            cs@ == p@,
            last_slash(p@) == last_slash(cs@.take(i as int)),
        decreases i,
    {
        proof {
            assert(cs@.take(i as int).drop_last() =~= cs@.take(i - 1));
        }
        i = i - 1;
    }
    proof {
        if i > 0 {
            assert(cs@.take(i as int).last() == cs@[i - 1]);
        }
    }
    if i > 1 {
        let mut out: Vec<char> = Vec::new();
        let mut j: usize = 0;
        while j < i - 1
            invariant
                i <= cs.len(),
                j <= i - 1,
                out@ == cs@.take(j as int),
            decreases i - 1 - j,
        {
            out.push(cs[j]);
            proof {
                assert(cs@.take(j + 1) =~= cs@.take(j as int).push(cs@[j as int]));
            }
            j = j + 1;
        }
        crate::text::string_from(&out)
    } else {
        proof {
            reveal_strlit("/");
            if i == 0 {
                assert(cs@.take(0) =~= Seq::<char>::empty());
            }
        }
        "/".to_owned()
    }
}

/// The root of the project that holds `cwd`: the first of `cwd` and the
/// directories above it, each reached with [`dirname`], for which
/// `config_exists` says that its configuration database is there; the
/// search stops, with an empty text, when it would next look at `/`.
pub fn document_root_from<F: Fn(&str) -> bool>(cwd: &str, config_exists: F) -> (r: String)
    requires
        forall|p: &str| #[trigger] config_exists.requires((p,)),
    ensures
        (exists|n: nat|
            {
                &&& r@ == ancestor(cwd@, n)
                &&& crate::utils::answered(config_exists, config_path(ancestor(cwd@, n)), true)
                &&& forall|j: nat|
                    j < n ==> crate::utils::answered(config_exists, config_path(#[trigger] ancestor(cwd@, j)), false)
                        && parent_dir(ancestor(cwd@, j)) != seq!['/']
            }) || (r@.len() == 0 && exists|n: nat|
            {
                &&& parent_dir(ancestor(cwd@, n)) == seq!['/']
                &&& forall|j: nat|
                    j <= n ==> crate::utils::answered(config_exists, config_path(#[trigger] ancestor(cwd@, j)), false)
                &&& forall|j: nat| j < n ==> parent_dir(#[trigger] ancestor(cwd@, j)) != seq!['/']
            }),
{
    let mut dir = cwd.to_owned();
    let ghost mut n: nat = 0;
    loop
        invariant
            forall|p: &str| #[trigger] config_exists.requires((p,)),
            dir@ == ancestor(cwd@, n),
            forall|j: nat|
                j < n ==> crate::utils::answered(config_exists, config_path(#[trigger] ancestor(cwd@, j)), false)
                    && parent_dir(ancestor(cwd@, j)) != seq!['/'],
        decreases dir@.len(),
    {
        let file = App::config_file(dir.as_str());
        let path = file.as_str();
        let found = config_exists(path);
        proof {
            reveal_strlit("/.webman/config.db");
            assert(path@ == config_path(dir@));
            assert(crate::utils::answered(config_exists, config_path(ancestor(cwd@, n)), found));
        }
        if found {
            return dir;
        }
        let next = dirname(dir.as_str());
        let slash = "/";
        proof {
            reveal_strlit("/");
            lemma_last_slash(dir@);
        }
        if crate::text::str_eq(next.as_str(), slash) {
            proof {
                assert(slash@ =~= seq!['/']);
                assert forall|j: nat| j <= n implies crate::utils::answered(
                    config_exists,
                    config_path(#[trigger] ancestor(cwd@, j)),
                    false,
                ) by {}
            }
            return String::new();
        }
        proof {
            assert(slash@ =~= seq!['/']);
            assert(next@ == ancestor(cwd@, n + 1));
            assert(next@.len() < dir@.len());
            n = n + 1;
        }
        dir = next;
    }
}

} // verus!
