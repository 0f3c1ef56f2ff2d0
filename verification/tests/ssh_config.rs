use webman::ssh_config::{add_or_update_host, include_parts, is_host_block, update_parsed_ssh_config, update_ssh_config, SshConfigUpdate};

const NEW_A: &str = "Host a\n\tHostName h\n\tUser u\n\tIdentityFile /k\n\tIdentitiesOnly yes\n";

#[test]
fn is_host_block_reads_the_first_host_line() {
    assert!(is_host_block("Host a\n  User x\n", "a"));
    assert!(is_host_block("# c\n   Host   a  \n", "a"));
    assert!(!is_host_block("Host ab\n", "a"));
    assert!(!is_host_block("Host b\nHost a\n", "a"));
    assert!(!is_host_block("User x\n", "a"));
}

#[test]
fn add_to_empty_config() {
    assert_eq!(add_or_update_host("", "a", "h", "u", "/k"), format!("\n\n{NEW_A}"));
}

#[test]
fn replace_existing_block() {
    assert_eq!(
        add_or_update_host("Host a\n\tHostName 1.1.1.1\n", "a", "h", "u", "/k"),
        format!("{NEW_A}\n")
    );
    assert_eq!(
        add_or_update_host("# top\nHost a\n  User x\nHost b\n  User y\n", "a", "h", "u", "/k"),
        format!("# top\n{NEW_A}\nHost b\n  User y\n")
    );
}

#[test]
fn append_when_host_absent() {
    assert_eq!(
        add_or_update_host("Host b\r\n  User y", "a", "h", "u", "/k"),
        format!("Host b\n  User y\n\n{NEW_A}")
    );
}

#[test]
fn result_holds_the_new_block() {
    for c in ["", "Host a\n", "Host b\n", "x\nHost a\nHost a\n"] {
        assert!(add_or_update_host(c, "a", "h", "u", "/k").contains(NEW_A));
    }
}

#[test]
fn update_sets_host_name_and_keeps_includes() {
    let config = "Include ~/.ssh/extra\nHost a\n  User x\n  HostName old\nHost b\n  User y\n";
    match update_ssh_config(config, "a", Some("new")) {
        SshConfigUpdate::Updated(s) => assert_eq!(
            s,
            "Include ~/.ssh/extra\n\n\n\nHost a\n\tUser x\n\tHostname old\n\tHostName new\n\n\nHost b\n\tUser y\n\n\n"
        ),
        _ => panic!("expected an update"),
    }
}

#[test]
fn update_adds_missing_host_name() {
    let config = "Host a\n  User x\n";
    match update_ssh_config(config, "a", Some("1.2.3.4")) {
        SshConfigUpdate::Updated(s) => {
            assert_eq!(s, "\n\n\n\nHost a\n\tUser x\n\tHostName 1.2.3.4\n\n\n")
        }
        _ => panic!("expected an update"),
    }
}

#[test]
fn update_reports_missing_host() {
    assert!(matches!(
        update_ssh_config("Host a\n  User x\n", "zz", None),
        SshConfigUpdate::HostNotFound
    ));
}

#[test]
fn update_of_a_parsed_configuration() {
    let parsed = vec![
        ("a".to_string(), vec![("User".to_string(), "x".to_string())]),
        ("b".to_string(), vec![("Hostname".to_string(), "h".to_string()), ("Port".to_string(), "22".to_string())]),
    ];
    match update_parsed_ssh_config("Include x\nHost a\n", Some(parsed.clone()), "b", Some("10.0.0.9")) {
        SshConfigUpdate::Updated(s) => assert_eq!(
            s,
            "Include x\n\n\n\nHost a\n\tUser x\n\n\nHost b\n\tHostname h\n\tPort 22\n\tHostName 10.0.0.9\n\n\n"
        ),
        _ => panic!("expected an update"),
    }
    let with_host_name = vec![("b".to_string(), vec![("HostName".to_string(), "old".to_string()), ("Port".to_string(), "2".to_string())])];
    match update_parsed_ssh_config("", Some(with_host_name), "b", Some("new")) {
        SshConfigUpdate::Updated(s) => assert_eq!(s, "\n\n\n\nHost b\n\tHostName new\n\tPort 2\n\n\n"),
        _ => panic!("expected an update"),
    }
    assert!(matches!(update_parsed_ssh_config("", Some(parsed), "c", None), SshConfigUpdate::HostNotFound));
    assert!(matches!(update_parsed_ssh_config("", None, "a", None), SshConfigUpdate::Unparsable));
}

#[test]
fn include_lines_are_set_apart() {
    let (with, without) = include_parts("Include a\nHost x\nInclude b\n  User y\n");
    assert_eq!(with.iter().collect::<String>(), "Include a\nInclude b");
    assert_eq!(without.iter().collect::<String>(), "Host x\n  User y");
    let (with, without) = include_parts("");
    assert!(with.is_empty() && without.is_empty());
}

#[test]
fn a_second_identical_update_changes_nothing() {
    for c in ["Host a\n  User x\n", "# top\nHost b\nHost a\nPort 1\n\nHost c\n", "Host a"] {
        let once = add_or_update_host(c, "a", "h", "u", "/k");
        let twice = add_or_update_host(&once, "a", "h", "u", "/k");
        assert_eq!(once, twice);
    }
}

#[test]
fn a_second_identical_update_keeps_crlf_content() {
    let c = "Host a\r\nX\r\nHost b\r\n  User y\r\n";
    let once = add_or_update_host(c, "a", "h", "u", "/k");
    assert_eq!(
        once,
        "Host a\n\tHostName h\n\tUser u\n\tIdentityFile /k\n\tIdentitiesOnly yes\n\nHost b\n  User y\n"
    );
    let twice = add_or_update_host(&once, "a", "h", "u", "/k");
    assert_eq!(once, twice);
}

#[test]
fn a_doubled_carriage_return_is_read_off_one_at_a_time() {
    let c = "Host b\nHost a\nX\r\r\n";
    let once = add_or_update_host(c, "b", "h", "u", "/k");
    assert!(once.ends_with("Host a\nX\r\n"));
    let twice = add_or_update_host(&once, "b", "h", "u", "/k");
    assert!(twice.ends_with("Host a\nX\n"));
    assert_ne!(once, twice);
}
