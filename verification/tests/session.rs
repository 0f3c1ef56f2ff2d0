use webman::cmd::Cmd;
use webman::prelude::{debug_mode, query_command};
use webman::session::{exec_step, finalized_command, resolved_upload_path, shell_init_script, shell_step, ExecEvent, ShellAction, ShellEvent};

#[test]
fn commands_run_in_the_working_directory() {
    assert_eq!(finalized_command(&Some("/srv".into()), "ls"), "cd /srv && ls");
    assert_eq!(finalized_command(&None, "ls"), "ls");
}

#[test]
fn shell_init_scripts() {
    assert_eq!(shell_init_script(None, &None), "");
    assert_eq!(shell_init_script(Some("$ "), &None), "export PS1='$ '\nclear\n");
    assert_eq!(
        shell_init_script(Some("> "), &Some("/srv".into())),
        "export PS1='> '\ncd \"/srv\"\nclear\n"
    );
}

#[test]
fn shell_steps() {
    assert!(matches!(shell_step(ShellEvent::Input(Some("ls\n".into()))), ShellAction::Send(s) if s == "ls\n"));
    assert!(matches!(shell_step(ShellEvent::Input(None)), ShellAction::Stop));
    assert!(matches!(shell_step(ShellEvent::Data("x".into())), ShellAction::Forward(s) if s == "x"));
    assert!(matches!(shell_step(ShellEvent::ExtendedData("e".into())), ShellAction::Forward(s) if s == "e"));
    assert!(matches!(shell_step(ShellEvent::Exited), ShellAction::Stop));
    assert!(matches!(shell_step(ShellEvent::Other), ShellAction::Wait));
}

#[test]
fn exec_steps_collect_output_and_fail_on_exit_code() {
    let mut out = String::new();
    assert_eq!(exec_step(&mut out, ExecEvent::Data("ab".into()), false), None);
    assert_eq!(exec_step(&mut out, ExecEvent::ExtendedData("c".into()), false), None);
    assert_eq!(exec_step(&mut out, ExecEvent::Other, false), None);
    assert_eq!(exec_step(&mut out, ExecEvent::ExitStatus(0), false), None);
    assert_eq!(out, "abc");
    assert_eq!(
        exec_step(&mut out, ExecEvent::ExitStatus(127), false),
        Some("Command failed with exit code 127:\nabc".to_string())
    );
    assert_eq!(
        exec_step(&mut out, ExecEvent::ExitStatus(2), true),
        Some("Interactive command failed with exit code 2:\nabc".to_string())
    );
}

#[test]
fn upload_paths() {
    assert_eq!(resolved_upload_path(&None, "a/b"), "a/b");
    assert_eq!(resolved_upload_path(&Some("/srv".into()), "a/b"), "/srv/a/b");
    assert_eq!(resolved_upload_path(&Some("/srv/".into()), "a"), "/srv/a");
    assert_eq!(resolved_upload_path(&Some("/srv".into()), "/etc/x"), "/etc/x");
    assert_eq!(resolved_upload_path(&Some("".into()), "a"), "a");
    let mut p = std::path::PathBuf::from("/srv");
    p.push("a/b");
    assert_eq!(p.to_string_lossy(), resolved_upload_path(&Some("/srv".into()), "a/b"));
}

#[test]
fn run_outcomes() {
    assert_eq!(Cmd::run_outcome(true, "  out\n", ""), Ok("out".to_string()));
    assert_eq!(Cmd::run_outcome(false, "out", "bad"), Err("command failed: bad".to_string()));
}

#[test]
fn debug_mode_and_queries() {
    assert!(debug_mode(Some("1")));
    assert!(!debug_mode(Some("true")));
    assert!(!debug_mode(None));
    assert_eq!(
        query_command("/tmp/x", ".active == true"),
        Some("cat \"/tmp/x\" | jq '.[] | select(.active == true)' | jq -s '.'".to_string())
    );
    assert_eq!(query_command("/tmp/x", ".name == 'a'"), None);
}
