use webman::cli::add::{central_configure_command, commit_message, confirmed, default_domain, home_from_answer, new_node_data};
use webman::cli::clone::install_backup_command;
use webman::cli::code::{remote_argument, vscode_settings, vscode_ssh_config};
use webman::cli::nodes::{custom_domain_display, decimal_string, dns_line, node_line, table_row};
use webman::cli::pbk::{chunk_path, install_key_command, node_chunk_path, public_key_path, remote_home_path, ssh_address};
use webman::cli::random::{action, characters, digits, hex, Commands};
use webman::cli::remote::code_remote_command;
use webman::cli::root::{needs_key, push_key_command, root_step, RootStep};
use webman::cli::setup::{portal_block_command, portal_setup_command, push_config_command, server_block_command};
use webman::cli::virtual_host::{header_lines, virtual_host_command};
use webman::config::{NodeBackup, NodeData, NodeSsh};

fn node() -> NodeData {
    NodeData {
        node_id: "n1".into(),
        app_id: "shop".into(),
        name: "Shop".into(),
        host: "10.0.0.1".into(),
        hostname: None,
        home: None,
        rel_dirname: None,
        remote_home_dir: None,
        domain_name: "shop.example.com".into(),
        custom_domain: Some("shop.com".into()),
        base_url: None,
        node_url: "https://shop.example.com".into(),
        ssh: NodeSsh { username: "deploy".into(), password: Some("s3cret".into()), private_key: None },
        mysql: None,
        backup: NodeBackup { bucket: "shop-bucket".into(), regulation_range: 10 },
        timezone_offset: None,
        mimics: None,
        active: true,
        dev_mode: false,
    }
}

#[test]
fn random_action_draws_the_kind_asked() {
    let d = action(Commands::Digits(digits::Args { length: 6 }));
    assert_eq!(d.len(), 6);
    assert!(d.chars().all(|c| c.is_ascii_digit()));
    let h = action(Commands::Hex(hex::Args { length: 9 }));
    assert!(h.len() == 9 && h.chars().all(|c| c.is_ascii_hexdigit() && !c.is_ascii_uppercase()));
    let c = action(Commands::Characters(characters::Args { length: 3 }));
    assert!(c.len() == 3 && c.chars().all(|c| c.is_ascii_alphanumeric()));
}

#[test]
fn decimal_strings() {
    for n in [0usize, 7, 10, 99, 100, 12345, usize::MAX] {
        let s: String = decimal_string(n).into_iter().collect();
        assert_eq!(s, n.to_string());
    }
}

#[test]
fn node_listing_lines() {
    let n = node();
    assert_eq!(dns_line(&n), "shop.example.com -> 10.0.0.1");
    assert_eq!(
        node_line("n1", &n),
        "Node Id: n1, Name: Shop, Host: 10.0.0.1, Node Url: https://shop.example.com, Custom Domain: https://shop.com"
    );
    assert_eq!(custom_domain_display(&None), "None");
    assert_eq!(
        table_row(0, "n1", &n),
        vec!["1", "n1", "shop", "Shop", "10.0.0.1", "https://shop.example.com", "https://shop.com"]
    );
}

#[test]
fn root_steps() {
    assert!(needs_key(false, true, true));
    assert!(needs_key(true, false, false));
    assert!(!needs_key(true, false, true));
    assert!(!needs_key(false, false, false));
    assert_eq!(push_key_command("1.2.3.4"), "webman push pbk --root-ip 1.2.3.4");
    match root_step(true, true, false, "1.2.3.4", &None) {
        RootStep::Code(c) => assert_eq!(c, "code --remote ssh-remote+root@1.2.3.4 /"),
        _ => panic!(),
    }
    match root_step(true, false, true, "1.2.3.4", &None) {
        RootStep::PrintSsh(c) => assert_eq!(c, "ssh -o ServerAliveInterval=300 root@1.2.3.4"),
        _ => panic!(),
    }
    match root_step(true, false, false, "1.2.3.4", &Some("/var".to_string())) {
        RootStep::Ssh(c) => assert_eq!(c, "ssh -o ServerAliveInterval=300 root@1.2.3.4 -t \"cd /var ; bash --login\" "),
        _ => panic!(),
    }
    assert!(matches!(root_step(false, false, true, "1.2.3.4", &None), RootStep::Report));
}

#[test]
fn public_key_paths() {
    assert_eq!(remote_home_path("root"), "/root");
    assert_eq!(remote_home_path("deploy"), "/home/deploy");
    assert_eq!(chunk_path("/root"), "/root/authorized_keys.chunk");
    assert_eq!(public_key_path("/home/me/.ssh/id_ed25519"), "/home/me/.ssh/id_ed25519.pub");
    let mut n = node();
    assert_eq!(node_chunk_path(&n), "/home/deploy/authorized_keys.chunk");
    n.remote_home_dir = Some("/srv/app".into());
    assert_eq!(node_chunk_path(&n), "/srv/app/authorized_keys.chunk");
    assert!(install_key_command().starts_with("mkdir -p .ssh && chmod 700 .ssh"));
}

#[test]
fn ssh_addresses() {
    assert_eq!(ssh_address("root@1.2.3.4"), Some(("root".to_string(), "1.2.3.4".to_string())));
    assert_eq!(ssh_address("a@b@c"), Some(("a".to_string(), "b".to_string())));
    assert_eq!(ssh_address("@h"), Some(("".to_string(), "h".to_string())));
    assert_eq!(ssh_address("node42"), None);
}

#[test]
fn setup_commands() {
    let n = node();
    assert_eq!(
        server_block_command(&n),
        "lemp config server-block --add-unix-user --use-certbot -u deploy -d \"shop.example.com\" -p \"s3cret\""
    );
    assert_eq!(
        portal_block_command(&n, "n1"),
        "portal-server config server-block -u deploy -d \"shop.example.com\" -n n1"
    );
    assert_eq!(push_config_command("n1"), "webman push config n1");
    assert_eq!(portal_setup_command(&n), "cd public_html && portal setup --bucket 'shop-bucket' 2>&1");
}

#[test]
fn virtual_host_command_and_header() {
    let n = node();
    assert_eq!(
        virtual_host_command(&n, "n1"),
        "wpanel config virtual-host -u \"deploy\" -d \"shop.example.com\" -n \"n1\" --use-certbot"
    );
    let h = header_lines("Shop", "n1");
    assert_eq!(h[1], "###               Shop (n1)");
    assert_eq!(h[0], h[2]);
}

#[test]
fn remote_and_code_texts() {
    assert_eq!(code_remote_command("box", &Some("/srv".into())), "code --remote ssh-remote+box /srv");
    assert_eq!(code_remote_command("box", &None), "code --remote ssh-remote+box ");
    assert_eq!(
        vscode_ssh_config("n1", "1.2.3.4", "deploy", "/k"),
        "Host n1\n\tHostName 1.2.3.4\n\tUser deploy\n\tIdentityFile /k\n\tIdentitiesOnly yes\n"
    );
    assert_eq!(vscode_settings("/tmp/c"), "{\"remote.SSH.configFile\": \"/tmp/c\"}");
    assert_eq!(remote_argument("n1"), "--remote=ssh-remote+n1");
    assert_eq!(install_backup_command("bk"), "cd public_html && portal backup install --bucket \"bk\" ");
}

#[test]
fn new_node_answers() {
    assert_eq!(default_domain("shop"), "shop.icitifysms.com");
    assert_eq!(home_from_answer("  /var/www "), Some("/var/www".to_string()));
    assert_eq!(home_from_answer("   "), None);
    assert!(confirmed("Y"));
    assert!(confirmed("y"));
    assert!(!confirmed("yes"));
    let n = new_node_data("abcd1234", "shop", "shop.com", "1.2.3.4", "Shop", None, "deploy");
    assert_eq!(n.node_url, "https://shop.com");
    assert_eq!(n.base_url.as_deref(), Some("https://shop.com"));
    assert_eq!(n.backup.bucket, "shop.com");
    assert_eq!(n.backup.regulation_range, 10);
    assert!(n.active && !n.dev_mode);
    let p = n.ssh.password.clone().unwrap();
    assert!(p.len() == 21 && p.chars().all(|c| c.is_ascii_alphanumeric()));
    let m = new_node_data("abcd1234", "shop", "shop.com", "1.2.3.4", "Shop", None, " ");
    assert_eq!(m.ssh.password.as_deref(), Some(""));
    assert_eq!(commit_message("abcd1234", "shop", "Shop"), "Add node abcd1234, app_id: shop, name: Shop");
    assert_eq!(central_configure_command("abcd1234"), "icitifysms-central node legacy-php configure abcd1234");
}

use webman::cli::devserver::devserver_index;
use webman::cli::edit::{diff_command, editable_text, editor_command};
use webman::cli::ssh::login_command;
use webman::config::{default_key_candidates, nodes_config_name_or_default, App, ServerData};

fn server(hostname: &str) -> ServerData {
    ServerData {
        root_ip: "1.1.1.1".into(),
        username: "root".into(),
        password: "".into(),
        hostname: hostname.into(),
        provider: "".into(),
    }
}

#[test]
fn devserver_is_the_first_mentioning_it() {
    let servers = vec![server("web1"), server("my-devserver-2"), server("devserver")];
    assert_eq!(devserver_index(&servers), Some(1));
    assert_eq!(devserver_index(&vec![server("web")]), None);
    assert_eq!(devserver_index(&vec![]), None);
}

#[test]
fn login_and_edit_commands() {
    assert_eq!(
        login_command("n1", "/home/u/public_html"),
        "ssh -o ServerAliveInterval=300 -t n1 \"cd /home/u/public_html ; bash --login\" "
    );
    assert_eq!(editor_command("/tmp/a.json"), "nano \"/tmp/a.json\"");
    assert_eq!(diff_command("/tmp/a", "/tmp/b"), "git diff --no-index \"/tmp/a\" \"/tmp/b\" ");
    assert_eq!(editable_text("{}"), "{}\n");
}

#[test]
fn small_defaults() {
    assert_eq!(App::tmp_extension("json"), ".json");
    assert_eq!(App::tmp_extension(""), "");
    assert_eq!(App::path_in("/tmp", "x.json"), "/tmp/x.json");
    assert_eq!(nodes_config_name_or_default(None), "webman.config");
    assert_eq!(nodes_config_name_or_default(Some("n.cfg".into())), "n.cfg");
    let keys = default_key_candidates("/home/u/.ssh");
    assert_eq!(keys, vec!["/home/u/.ssh/id_ed25519", "/home/u/.ssh/id_ecdsa", "/home/u/.ssh/id_rsa", "/home/u/.ssh/id_dsa"]);
}
