use zsh_tool_exec::alan::init_schema;
use zsh_tool_exec::alan::insights::{
    extract_base_command, get_post_insights, get_pre_insights, get_pre_insights_at,
};
use zsh_tool_exec::alan::record;
use zsh_tool_exec::alan::record_at;
use zsh_tool_exec::alan::store::Store;

fn run(store: &mut Store, cmd: &str, session: &str, exit_code: i32) {
    record(store, session, cmd, exit_code, 100, false, "", &[exit_code], 10).unwrap();
}

fn pair(level: &str, message: &str) -> (String, String) {
    (level.to_string(), message.to_string())
}

#[test]
fn test_new_pattern_insight() {
    let store = init_schema();
    let insights = get_pre_insights(&store, "echo never_seen_before", "s1", 3, 10);
    assert!(
        insights.iter().any(|(_, msg)| msg.contains("New pattern")),
        "Expected 'New pattern' insight, got: {:?}",
        insights
    );
}

#[test]
fn test_retry_detection_insight() {
    let mut store = init_schema();
    run(&mut store, "echo retry_test", "s1", 0);
    run(&mut store, "echo retry_test", "s1", 0);
    let insights = get_pre_insights(&store, "echo retry_test", "s1", 3, 10);
    assert!(
        insights.iter().any(|(_, msg)| msg.contains("Retry")),
        "Expected 'Retry' insight, got: {:?}",
        insights
    );
}

#[test]
fn test_streak_insight() {
    let mut store = init_schema();
    for _ in 0..4 {
        run(&mut store, "echo streak_cmd", "s1", 0);
    }
    let insights = get_pre_insights(&store, "echo streak_cmd", "s1", 3, 10);
    assert!(
        insights.iter().any(|(_, msg)| msg.contains("Streak") || msg.contains("streak")),
        "Expected streak insight, got: {:?}",
        insights
    );
}

#[test]
fn test_failing_streak_warning() {
    let mut store = init_schema();
    for _ in 0..4 {
        run(&mut store, "echo fail_cmd", "s1", 1);
    }
    let insights = get_pre_insights(&store, "echo fail_cmd", "s1", 3, 10);
    assert!(
        insights.iter().any(|(level, msg)| level == "warning" && msg.contains("Failing streak")),
        "Expected failing streak warning, got: {:?}",
        insights
    );
}

#[test]
fn test_reliable_pattern_insight() {
    let mut store = init_schema();
    for _ in 0..6 {
        run(&mut store, "echo reliable_cmd", "s1", 0);
    }
    let insights = get_pre_insights(&store, "echo reliable_cmd", "s1", 3, 10);
    assert!(
        insights.iter().any(|(_, msg)| msg.contains("Reliable")),
        "Expected 'Reliable' insight, got: {:?}",
        insights
    );
}

#[test]
fn test_post_insights_silent_command() {
    let insights = get_post_insights("echo test", &[0], "");
    assert!(
        insights.iter().any(|(_, msg)| msg.contains("No output produced")),
        "Expected silent detection, got: {:?}",
        insights
    );
}

#[test]
fn test_post_insights_command_not_found() {
    let insights = get_post_insights("nonexistent_cmd", &[127], "");
    assert!(
        insights.iter().any(|(level, msg)| level == "warning" && msg.contains("command not found")),
        "Expected 'command not found', got: {:?}",
        insights
    );
}

#[test]
fn test_post_insights_grep_no_match() {
    let insights = get_post_insights("grep pattern file", &[1], "");
    assert!(
        insights.iter().any(|(_, msg)| msg.contains("no match")),
        "Expected 'no match', got: {:?}",
        insights
    );
}

#[test]
fn test_post_insights_pipe_masking() {
    let insights = get_post_insights("fail | succeed", &[1, 0], "output");
    assert!(
        insights.iter().any(|(level, msg)| level == "warning" && msg.contains("masked by downstream")),
        "Expected pipe masking warning, got: {:?}",
        insights
    );
}

#[test]
fn test_post_insights_sigpipe_not_warned() {
    let insights = get_post_insights("head | cat", &[141, 0], "output");
    assert!(
        !insights.iter().any(|(_, msg)| msg.contains("masked by downstream")),
        "SIGPIPE should not trigger warning, got: {:?}",
        insights
    );
}

#[test]
fn test_extract_base_command() {
    assert_eq!(extract_base_command("git status"), "git");
    assert_eq!(extract_base_command("/usr/bin/grep foo"), "grep");
    assert_eq!(extract_base_command(""), "");
}

#[test]
fn base_command_of_odd_lines() {
    assert_eq!(extract_base_command("   ./run.sh  now"), "run.sh");
    assert_eq!(extract_base_command("dir/ arg"), "");
    assert_eq!(extract_base_command("\t\n"), "");
}

#[test]
fn post_insights_exact_messages() {
    assert_eq!(get_post_insights("anything", &[], "text"), Vec::<(String, String)>::new());
    assert_eq!(
        get_post_insights("true", &[0], "  \n\t"),
        vec![pair("info", "No output produced.")]
    );
    assert_eq!(
        get_post_insights("./script", &[126], "x"),
        vec![pair("warning", "permission denied (exit 126)")]
    );
    assert_eq!(
        get_post_insights("ssh host", &[255], "x"),
        vec![pair("warning", "SSH connection failed (exit 255)")]
    );
    assert_eq!(
        get_post_insights("/usr/bin/grep foo bar", &[1], "x"),
        vec![pair("info", "grep exit 1 = no match (normal)")]
    );
    assert_eq!(
        get_post_insights("diff a b", &[1], "x"),
        vec![pair("info", "diff exit 1 = files differ (normal)")]
    );
    assert_eq!(
        get_post_insights("[ -f x ]", &[1], "x"),
        vec![pair("info", "[ exit 1 = condition false (normal)")]
    );
    assert_eq!(get_post_insights("grep foo bar", &[2], "x"), Vec::<(String, String)>::new());
    assert_eq!(
        get_post_insights("a | b | c | d", &[2, 141, -3, 0], "out"),
        vec![
            pair("warning", "pipe segment 1 exited 2 (masked by downstream)"),
            pair("warning", "pipe segment 3 exited -3 (masked by downstream)"),
        ]
    );
    assert_eq!(get_post_insights("a | grep x", &[0, 1], ""), Vec::<(String, String)>::new());
    assert_eq!(
        get_post_insights("grep x | a", &[0, 1], ""),
        vec![pair("info", "grep exit 1 = no match (normal)")]
    );
}

fn ids(tag: &str, n: usize) -> Vec<String> {
    (0..n).map(|k| format!("{}-{}", tag, k)).collect()
}

#[test]
fn pre_insights_exact_messages() {
    let minute: u64 = 60_000_000;
    let mut store = init_schema();
    assert_eq!(
        get_pre_insights_at(&store, "make test", "s1", 3, 10, 100 * minute),
        vec![pair("info", "New pattern. No history yet.")]
    );
    record_at(&mut store, "s1", "make test", 2, 12_000, false, "", &[2], 10, 100 * minute, "t", &ids("a", 3)).unwrap();
    record_at(&mut store, "s1", "make test", 2, 12_000, false, "", &[2], 10, 101 * minute, "t", &ids("b", 3)).unwrap();
    assert_eq!(
        get_pre_insights_at(&store, "make test", "s1", 3, 10, 102 * minute),
        vec![
            pair("warning", "Retry #3. Previous 2 all failed. Different approach?"),
            pair("info", "Usually takes ~12s."),
        ]
    );
    record_at(&mut store, "s1", "make test", 0, 12_000, false, "", &[0], 10, 102 * minute, "t", &ids("c", 3)).unwrap();
    assert_eq!(
        get_pre_insights_at(&store, "make test", "s1", 3, 10, 103 * minute),
        vec![
            pair("info", "Retry #4 in last 10m. 1/3 succeeded."),
            pair("info", "Usually takes ~12s."),
        ]
    );
    assert_eq!(
        get_pre_insights_at(&store, "ls", "s1", 3, 10, 103 * minute),
        vec![pair("info", "New pattern. No history yet.")]
    );
    assert_eq!(
        get_pre_insights_at(&store, "make test", "s1", 3, 10, 200 * minute),
        vec![pair("info", "Usually takes ~12s.")]
    );
}

#[test]
fn similar_commands_are_counted_by_template() {
    let minute: u64 = 60_000_000;
    let mut store = init_schema();
    record_at(&mut store, "s1", "echo one", 0, 5, false, "", &[0], 10, minute, "t", &ids("a", 3)).unwrap();
    record_at(&mut store, "s1", "echo two", 1, 5, false, "", &[1], 10, minute, "t", &ids("b", 3)).unwrap();
    assert_eq!(
        get_pre_insights_at(&store, "echo three", "s1", 3, 10, 2 * minute),
        vec![
            pair("info", "Similar to 'echo *' - 1/2 succeeded recently."),
            pair("info", "New pattern. No history yet."),
        ]
    );
}

#[test]
fn streak_and_reliability_messages() {
    let minute: u64 = 60_000_000;
    let mut store = init_schema();
    for k in 0..5u64 {
        record_at(&mut store, "s1", "echo ok", 0, 5, false, "", &[0], 10, k * minute, "t", &ids(&format!("r{}", k), 3)).unwrap();
    }
    assert_eq!(
        get_pre_insights_at(&store, "echo ok", "s2", 3, 10, 1000 * minute),
        vec![
            pair("info", "Streak: 5 successes in a row. Solid."),
            pair("info", "Reliable pattern: 100% success (5 runs)."),
        ]
    );
    let mut failing = init_schema();
    for k in 0..3u64 {
        record_at(&mut failing, "s1", "sleep 9", 1, 5, true, "", &[1], 10, k * minute, "t", &ids(&format!("f{}", k), 3)).unwrap();
    }
    assert_eq!(
        get_pre_insights_at(&failing, "sleep 9", "s2", 3, 10, 1000 * minute),
        vec![
            pair("warning", "Failing streak: 3. Same approach?"),
            pair("warning", "100% timeout rate for this pattern."),
        ]
    );
}
