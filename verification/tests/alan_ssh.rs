use zsh_tool_exec::alan::ssh::{classify_ssh_exit, parse_ssh_command};

#[test]
fn test_parse_simple_ssh() {
    let info = parse_ssh_command("ssh myhost").unwrap();
    assert_eq!(info.host, "myhost");
    assert!(info.remote_command.is_none());
}

#[test]
fn test_parse_ssh_with_user() {
    let info = parse_ssh_command("ssh user@host").unwrap();
    assert_eq!(info.host, "host");
    assert_eq!(info.user.unwrap(), "user");
}

#[test]
fn test_parse_ssh_with_remote_command() {
    let info = parse_ssh_command("ssh host ls -la /tmp").unwrap();
    assert_eq!(info.host, "host");
    assert_eq!(info.remote_command.unwrap(), "ls -la /tmp");
}

#[test]
fn test_parse_ssh_with_port() {
    let info = parse_ssh_command("ssh -p 2222 host").unwrap();
    assert_eq!(info.host, "host");
    assert_eq!(info.port.unwrap(), "2222");
}

#[test]
fn test_parse_not_ssh() {
    assert!(parse_ssh_command("ls -la").is_none());
}

#[test]
fn test_classify_exit() {
    assert_eq!(classify_ssh_exit(0), "success");
    assert_eq!(classify_ssh_exit(1), "command_failed");
    assert_eq!(classify_ssh_exit(255), "connection_failed");
}

#[test]
fn test_ssh_exit_classification() {
    assert_eq!(classify_ssh_exit(0), "success");
    assert_eq!(classify_ssh_exit(1), "command_failed");
    assert_eq!(classify_ssh_exit(255), "connection_failed");
}

#[test]
fn ssh_exit_outside_the_table_is_unknown() {
    assert_eq!(classify_ssh_exit(254), "command_failed");
    assert_eq!(classify_ssh_exit(256), "unknown");
    assert_eq!(classify_ssh_exit(-1), "unknown");
}

#[test]
fn ssh_login_option_names_the_user() {
    let info = parse_ssh_command("  ssh   -l  alice -i key.pem -v  box  uptime  -a ").unwrap();
    assert_eq!(info.host, "box");
    assert_eq!(info.user.unwrap(), "alice");
    assert!(info.port.is_none());
    assert_eq!(info.remote_command.unwrap(), "uptime -a");
}

#[test]
fn ssh_without_host_is_nothing() {
    assert!(parse_ssh_command("ssh").is_none());
    assert!(parse_ssh_command("ssh -v").is_none());
    assert!(parse_ssh_command("ssh -p 22").is_none());
    assert!(parse_ssh_command("ssh -p").is_none());
    assert!(parse_ssh_command("").is_none());
}

#[test]
fn ssh_user_is_split_at_the_last_at_sign() {
    let info = parse_ssh_command("ssh a@b@c").unwrap();
    assert_eq!(info.user.unwrap(), "a@b");
    assert_eq!(info.host, "c");
}
