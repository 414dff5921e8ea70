use rshell::host::{check_exit, prompt, render_prompt, resolve_dir, resolve_dir_with, ShellError};

#[test]
fn zero_exit_is_success() {
    assert_eq!(check_exit(true, Some(0)), Ok(()));
}

#[test]
fn failing_exit_carries_its_code() {
    assert_eq!(check_exit(false, Some(1)), Err(ShellError::CommandFailed { code: Some(1) }));
    assert_eq!(check_exit(false, None), Err(ShellError::CommandFailed { code: None }));
}

#[test]
fn tilde_goes_to_reported_home() {
    assert_eq!(resolve_dir_with("~", Some("/home/u".to_string())), Ok("/home/u".to_string()));
}

#[test]
fn tilde_without_home_is_not_found() {
    assert_eq!(resolve_dir_with("~", None), Err(ShellError::HomeNotFound));
}

#[test]
fn other_tokens_are_paths() {
    assert_eq!(resolve_dir_with("/tmp", None), Ok("/tmp".to_string()));
    assert_eq!(resolve_dir_with("~/x", Some("/h".to_string())), Ok("~/x".to_string()));
    assert_eq!(resolve_dir("/nonexistent-path-xyz"), Ok("/nonexistent-path-xyz".to_string()));
    assert_eq!(resolve_dir("src"), Ok("src".to_string()));
}

#[test]
fn tilde_resolves_to_home_or_not_found() {
    match resolve_dir("~") {
        Ok(d) => assert_ne!(d, "~"),
        Err(e) => assert_eq!(e, ShellError::HomeNotFound),
    }
}

#[test]
fn prompt_layout() {
    assert_eq!(render_prompt("alice", Some("box".to_string()), "/tmp"), "alice@box:/tmp $ ");
}

#[test]
fn prompt_without_host_name() {
    assert_eq!(render_prompt("bob", None, "/"), "bob@unknown:/ $ ");
}

#[test]
fn prompt_shows_working_directory() {
    let p = prompt("/some/dir");
    assert!(p.ends_with(":/some/dir $ "));
    assert!(p.contains('@'));
    assert!(!p.starts_with("@"));
}
