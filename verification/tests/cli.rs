use zsh_tool_exec::cli::{parse_exec_args, UsageError};

fn args(items: &[&str]) -> Vec<String> {
    items.iter().map(|s| s.to_string()).collect()
}

#[test]
fn exec_arguments_are_read() {
    let a = parse_exec_args(&args(&[
        "--meta", "/tmp/m.json", "--timeout", "30", "--pty", "--db", "/tmp/a.db", "--session-id",
        "abc", "--", "echo", "hello world", "--pty",
    ]))
    .ok()
    .unwrap();
    assert_eq!(a.meta_path, "/tmp/m.json");
    assert_eq!(a.timeout_secs, 30);
    assert!(a.pty);
    assert_eq!(a.command, "echo hello world --pty");
    assert_eq!(a.db_path.as_deref(), Some("/tmp/a.db"));
    assert_eq!(a.session_id.as_deref(), Some("abc"));
}

#[test]
fn exec_arguments_have_defaults() {
    let a = parse_exec_args(&args(&["--meta", "m", "ls", "-la"])).ok().unwrap();
    assert_eq!(a.timeout_secs, 120);
    assert!(!a.pty);
    assert_eq!(a.command, "ls -la");
    assert_eq!(a.db_path, None);
    assert_eq!(a.session_id, None);
    let b = parse_exec_args(&args(&["--timeout", "soon", "--meta", "m", "x"])).ok().unwrap();
    assert_eq!(b.timeout_secs, 120);
    let c = parse_exec_args(&args(&["--meta", "--pty", "x"])).ok().unwrap();
    assert_eq!(c.meta_path, "--pty");
    assert!(!c.pty);
    let d = parse_exec_args(&args(&["--meta", "m", "x", "--timeout"])).ok().unwrap();
    assert_eq!(d.command, "x --timeout");
}

#[test]
fn exec_arguments_without_file_or_command_are_refused() {
    assert_eq!(parse_exec_args(&args(&[])).err(), Some(UsageError));
    assert_eq!(parse_exec_args(&args(&["ls"])).err(), Some(UsageError));
    assert_eq!(parse_exec_args(&args(&["--meta", "m"])).err(), Some(UsageError));
    assert_eq!(parse_exec_args(&args(&["--meta", "m", "--"])).err(), Some(UsageError));
    assert_eq!(parse_exec_args(&args(&["--meta", "m", "--", ""])).err(), Some(UsageError));
    assert_eq!(parse_exec_args(&args(&["--meta"])).err(), Some(UsageError));
    assert_eq!(parse_exec_args(&args(&["--meta", "m", "--db"])).err(), Some(UsageError));
    assert_eq!(parse_exec_args(&args(&["--meta", "m", "--session-id"])).err(), Some(UsageError));
    assert_eq!(parse_exec_args(&args(&["--meta", "", "ls"])).err(), Some(UsageError));
    assert!(parse_exec_args(&args(&["--meta", "m", "--timeout"])).is_err());
}
