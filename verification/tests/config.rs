use webman::config::first_existing_key;
use indexmap::IndexMap;
use webman::config::{
    active_node_ids, dirname, document_root_from, App, ConfigDb, CustomDomain, CustomDomainData, NodeBackup, NodeData, NodeSsh, ServerData,
};
use webman::tables::{Nodes, Servers};

fn node(node_id: &str, custom_domain: Option<&str>, active: bool) -> NodeData {
    NodeData {
        node_id: node_id.to_string(),
        app_id: "app".to_string(),
        name: "Name".to_string(),
        host: "10.0.0.1".to_string(),
        hostname: None,
        home: None,
        rel_dirname: None,
        remote_home_dir: None,
        domain_name: "app.example.com".to_string(),
        custom_domain: custom_domain.map(|s| s.to_string()),
        base_url: None,
        node_url: "https://app.example.com".to_string(),
        ssh: NodeSsh { username: "deploy".to_string(), password: Some("pw".to_string()), private_key: None },
        mysql: None,
        backup: NodeBackup { bucket: "bucket".to_string(), regulation_range: 10 },
        timezone_offset: None,
        mimics: None,
        active,
        dev_mode: false,
    }
}

#[test]
fn config_paths() {
    assert_eq!(App::config_file("/srv/p"), "/srv/p/.webman/config.db");
    assert_eq!(ConfigDb::connection_url("/srv/p"), "sqlite:///srv/p/.webman/config.db");
    assert_eq!(App::config_file(""), "/.webman/config.db");
}

#[test]
fn custom_domain_paths() {
    let d = CustomDomain::new("shop.example.com", "abc123");
    assert_eq!(d.ssl_dir(), "/etc/ssl/icitifysms/abc/shop.example.com");
    assert_eq!(d.ssl_key_path(), "/etc/ssl/icitifysms/abc/shop.example.com/key.pem");
    assert_eq!(d.ssl_cert_path(), "/etc/ssl/icitifysms/abc/shop.example.com/cert.pem");
    let e = CustomDomain::new("x.y", "\u{e9}1x");
    assert_eq!(e.ssl_dir(), "/etc/ssl/icitifysms/\u{e9}1/x.y");
}

#[test]
fn node_directories_and_hostname() {
    let mut n = node("n1", None, true);
    assert_eq!(n.hostname(), "deploy_10.0.0.1");
    assert_eq!(n.remote_dir(), "/home/deploy");
    assert_eq!(n.remote_node_dir(), "/home/deploy/public_html");
    n.hostname = Some("alias".to_string());
    n.home = Some("/var/www".to_string());
    assert_eq!(n.hostname(), "alias");
    assert_eq!(n.remote_node_dir(), "/var/www");
}

#[test]
fn node_from_row() {
    let row = Nodes {
        node_id: "n1".into(),
        app_id: "app".into(),
        active: Some(1),
        dev_mode: Some(2),
        timezone_offset: Some(-60),
        ..Default::default()
    };
    let ssh = NodeSsh { username: "u".into(), password: None, private_key: None };
    let backup = NodeBackup { bucket: "b".into(), regulation_range: 3 };
    let n = NodeData::from_db_row(row, ssh, None, backup);
    assert_eq!(n.node_id, "n1");
    assert!(n.active);
    assert!(!n.dev_mode);
    assert_eq!(n.timezone_offset, Some(-60i64));
    assert!(n.home.is_none() && n.base_url.is_none());
    let row = Nodes { active: None, ..Default::default() };
    let n = NodeData::from_db_row(
        row,
        NodeSsh { username: "u".into(), password: None, private_key: None },
        None,
        NodeBackup { bucket: "b".into(), regulation_range: 3 },
    );
    assert!(!n.active);
}

#[test]
fn server_from_row() {
    let row = Servers { ip: "1.2.3.4".into(), username: "root".into(), hostname: Some("devserver".into()), ..Default::default() };
    let s: ServerData = ServerData::from_db_row(row);
    assert_eq!(s.root_ip, "1.2.3.4");
    assert_eq!(s.password, "");
    assert_eq!(s.hostname, "devserver");
    assert_eq!(s.provider, "");
}

#[test]
fn custom_domains_listed_in_node_order() {
    let mut nodes: IndexMap<String, NodeData> = IndexMap::new();
    nodes.insert("n2".into(), node("n2", Some("b.com"), false));
    nodes.insert("n1".into(), node("n1", None, true));
    nodes.insert("n3".into(), node("n3", Some("c.com"), true));
    let list = CustomDomain::list_from_cache(&nodes);
    assert_eq!(list.len(), 2);
    assert_eq!((list[0].domain_name.as_str(), list[0].node_id.as_str(), list[0].active), ("b.com", "n2", false));
    assert_eq!((list[1].domain_name.as_str(), list[1].node_id.as_str(), list[1].active), ("c.com", "n3", true));
}

#[test]
fn active_domains_need_activity_and_certificates() {
    let domains = vec![
        CustomDomainData { domain_name: "a".into(), node_id: "1".into(), active: true },
        CustomDomainData { domain_name: "b".into(), node_id: "2".into(), active: false },
        CustomDomainData { domain_name: "c".into(), node_id: "3".into(), active: true },
    ];
    let kept = CustomDomain::active_domains(&domains, &vec![true, true, false]);
    assert_eq!(kept.len(), 1);
    assert_eq!(kept[0].domain_name, "a");
}

#[test]
fn active_node_ids_in_map_order() {
    let mut nodes: IndexMap<String, NodeData> = IndexMap::new();
    nodes.insert("n2".into(), node("n2", None, true));
    nodes.insert("n1".into(), node("n1", None, false));
    nodes.insert("n3".into(), node("n3", None, true));
    assert_eq!(active_node_ids(&nodes), vec!["n2".to_string(), "n3".to_string()]);
    assert!(active_node_ids(&IndexMap::new()).is_empty());
}

#[test]
fn temporary_directory_paths() {
    assert_eq!(App::tmp_directory_path("/srv/p"), "/srv/p/tmp");
    assert_eq!(App::tmp_directory_path("/srv/p/"), "/srv/p/tmp");
    assert_eq!(App::tmp_directory_path(""), "tmp");
}

#[test]
fn first_existing_key_follows_the_preference_order() {
    assert_eq!(
        first_existing_key("/h/.ssh", |p: &str| p.ends_with("id_rsa") || p.ends_with("id_dsa")),
        Some("/h/.ssh/id_rsa".to_string())
    );
    assert_eq!(first_existing_key("/h/.ssh", |_: &str| true), Some("/h/.ssh/id_ed25519".to_string()));
    assert_eq!(first_existing_key("/h/.ssh", |_: &str| false), None);
}

#[test]
fn document_root_search_goes_up_and_stops_before_the_root() {
    assert_eq!(dirname("/srv/p/src"), "/srv/p");
    assert_eq!(dirname("/srv"), "/");
    assert_eq!(dirname("rel"), "/");
    assert_eq!(dirname("a/b"), "a");
    let found = document_root_from("/srv/p/src/deep", |p: &str| p == "/srv/p/.webman/config.db");
    assert_eq!(found, "/srv/p");
    assert_eq!(document_root_from("/srv/p", |_: &str| false), "");
    assert_eq!(document_root_from("/srv/p", |_: &str| true), "/srv/p");
}
