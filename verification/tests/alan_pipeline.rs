use zsh_tool_exec::alan::init_schema;
use zsh_tool_exec::alan::pipeline::parse_pipeline;
use zsh_tool_exec::alan::record;

fn strings(items: &[&str]) -> Vec<String> {
    items.iter().map(|s| s.to_string()).collect()
}

#[test]
fn test_pipeline_segments_recorded() {
    let mut store = init_schema();
    record(&mut store, "pipetest", "false | true", 0, 5, false, "", &[1, 0], 10).unwrap();
    assert_eq!(store.observations.len(), 3, "1 full + 2 segments");
    assert_eq!(store.recent_commands.len(), 3);
}

#[test]
fn test_single_command_no_segments() {
    let mut store = init_schema();
    record(&mut store, "singletest", "echo hello", 0, 5, false, "", &[0], 10).unwrap();
    assert_eq!(store.observations.len(), 1, "single command = 1 observation, no segments");
}

#[test]
fn test_quoted_pipe_not_split() {
    let mut store = init_schema();
    record(&mut store, "quotetest", "echo \"a|b\"", 0, 5, false, "", &[0], 10).unwrap();
    assert_eq!(store.observations.len(), 1, "quoted pipe should not split");
}

#[test]
fn quoted_pipe_is_not_a_separator() {
    assert_eq!(
        parse_pipeline("echo \"a|b\" | grep a"),
        strings(&["echo \"a|b\"", "grep a"])
    );
    assert_eq!(parse_pipeline("echo 'a|b' | wc"), strings(&["echo 'a|b'", "wc"]));
}

#[test]
fn logical_or_is_not_a_separator() {
    assert_eq!(parse_pipeline("a || b"), strings(&["a || b"]));
    assert_eq!(parse_pipeline("a || b | c"), strings(&["a || b", "c"]));
    assert_eq!(parse_pipeline("a ||| b"), strings(&["a ||", "b"]));
}

#[test]
fn escaped_pipe_is_not_a_separator() {
    assert_eq!(parse_pipeline("echo a\\|b | grep a"), strings(&["echo a\\|b", "grep a"]));
    assert_eq!(parse_pipeline("echo \\\" | cat"), strings(&["echo \\\"", "cat"]));
}

#[test]
fn empty_segments_are_dropped() {
    assert_eq!(parse_pipeline(""), Vec::<String>::new());
    assert_eq!(parse_pipeline("   "), Vec::<String>::new());
    assert_eq!(parse_pipeline("| a |  | b |"), strings(&["a", "b"]));
    assert_eq!(parse_pipeline("  ls -la  |  sort  "), strings(&["ls -la", "sort"]));
}

#[test]
fn mismatched_pipestatus_records_no_segments() {
    let mut store = init_schema();
    record(&mut store, "s", "a | b | c", 0, 5, false, "", &[0, 0], 10).unwrap();
    assert_eq!(store.observations.len(), 1);
    record(&mut store, "s", "a | b | c", 0, 5, false, "", &[0, 1, 0], 10).unwrap();
    assert_eq!(store.observations.len(), 5);
    assert_eq!(store.observations[2].command_preview, "a");
    assert_eq!(store.observations[3].command_preview, "b");
    assert_eq!(store.observations[3].exit_code, 1);
    assert_eq!(store.observations[4].command_preview, "c");
}
