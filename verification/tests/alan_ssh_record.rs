use zsh_tool_exec::alan::init_schema;
use zsh_tool_exec::alan::insights::get_pre_insights;
use zsh_tool_exec::alan::record;
use zsh_tool_exec::alan::ssh::get_ssh_insights;

#[test]
fn test_ssh_recording() {
    let mut store = init_schema();
    record(&mut store, "s1", "ssh myhost ls -la", 0, 500, false, "", &[0], 10).unwrap();
    let count = store.ssh_observations.iter().filter(|r| r.host == "myhost").count();
    assert_eq!(count, 1);
    let row = &store.ssh_observations[0];
    assert_eq!(row.observation_id, store.observations[0].id);
    assert_eq!(row.remote_command.as_deref(), Some("ls -la"));
    assert_eq!(row.remote_command_template.as_deref(), Some("ls -la"));
    assert_eq!(row.exit_type, "success");
    assert_eq!(row.weight, 1_000_000);
}

#[test]
fn test_ssh_not_recorded_for_non_ssh() {
    let mut store = init_schema();
    record(&mut store, "s1", "ls -la /tmp", 0, 100, false, "", &[0], 10).unwrap();
    assert_eq!(store.ssh_observations.len(), 0);
}

#[test]
fn test_ssh_connection_failure_insight() {
    let mut store = init_schema();
    for _ in 0..4 {
        record(&mut store, "s1", "ssh badhost", 255, 1000, false, "", &[255], 10).unwrap();
    }
    let insights = get_pre_insights(&store, "ssh badhost", "s1", 3, 10);
    assert!(
        insights.iter().any(|(level, msg)| level == "warning" && msg.contains("connection failure rate")),
        "Expected connection failure insight, got: {:?}",
        insights
    );
}

#[test]
fn test_ssh_reliable_host_insight() {
    let mut store = init_schema();
    for _ in 0..4 {
        record(&mut store, "s1", "ssh goodhost echo hello", 0, 200, false, "", &[0], 10).unwrap();
    }
    let insights = get_pre_insights(&store, "ssh goodhost uptime", "s1", 3, 10);
    assert!(
        insights.iter().any(|(_, msg)| msg.contains("reliable")),
        "Expected reliable host insight, got: {:?}",
        insights
    );
}

#[test]
fn ssh_insights_exact_messages() {
    let mut store = init_schema();
    assert!(get_ssh_insights(&store, "ssh box uptime").is_empty());
    assert!(get_ssh_insights(&store, "ls").is_empty());
    for code in [255, 255, 0] {
        record(&mut store, "s1", "ssh box uptime", code, 10, false, "", &[code], 10).unwrap();
    }
    assert_eq!(
        get_ssh_insights(&store, "ssh box"),
        vec![(
            "warning".to_string(),
            "Host 'box' has 67% connection failure rate (2/3).".to_string()
        )]
    );
    let mut good = init_schema();
    for host in ["a", "b", "a"] {
        let cmd = format!("ssh {} df -h", host);
        record(&mut good, "s1", &cmd, 0, 10, false, "", &[0], 10).unwrap();
    }
    assert_eq!(
        get_ssh_insights(&good, "ssh c df -h"),
        vec![(
            "info".to_string(),
            "Remote command 'df -h' reliable across 2 hosts (100% success).".to_string()
        )]
    );
    let mut bad = init_schema();
    for host in ["a", "b"] {
        let cmd = format!("ssh {} false", host);
        record(&mut bad, "s1", &cmd, 1, 10, false, "", &[1], 10).unwrap();
    }
    assert_eq!(
        get_ssh_insights(&bad, "ssh a false"),
        vec![(
            "warning".to_string(),
            "Remote command 'false' fails often (2/2 across 2 hosts).".to_string()
        )]
    );
}

#[test]
fn ssh_row_is_recorded_on_its_own() {
    let mut store = init_schema();
    zsh_tool_exec::alan::record_ssh(&mut store, "s-1", "o-1", "ssh -p 22 me@box  tail -f  log", 255, 90, true, "now");
    zsh_tool_exec::alan::record_ssh(&mut store, "s-2", "o-2", "scp a b", 0, 1, false, "now");
    assert_eq!(store.ssh_observations.len(), 1);
    let row = &store.ssh_observations[0];
    assert_eq!(row.id, "s-1");
    assert_eq!(row.observation_id, "o-1");
    assert_eq!(row.host, "box");
    assert_eq!(row.remote_command.as_deref(), Some("tail -f log"));
    assert_eq!(row.remote_command_template.as_deref(), Some("tail -f *"));
    assert_eq!(row.exit_code, 255);
    assert_eq!(row.exit_type, "connection_failed");
    assert_eq!(row.duration_ms, 90);
    assert!(row.timed_out);
    assert_eq!(row.created_at, "now");
    assert!(store.observations.is_empty());
}
