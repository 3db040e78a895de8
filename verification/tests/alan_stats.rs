use zsh_tool_exec::alan::init_schema;
use zsh_tool_exec::alan::record_at;
use zsh_tool_exec::alan::stats::{get_hot_patterns, get_session_stats, get_stats, query_pattern};
use zsh_tool_exec::alan::store::Store;
use zsh_tool_exec::alan::RecordError;

fn run(store: &mut Store, n: u64, session: &str, command: &str, exit: i32, ms: u64, timed_out: bool) {
    let ids: Vec<String> = (0..4).map(|k| format!("id-{}-{}", n, k)).collect();
    let stamp = format!("2024-01-{:02}T00:00:00+00:00", n);
    record_at(store, session, command, exit, ms, timed_out, "", &[exit], 10, n * 1_000_000, &stamp, &ids)
        .unwrap();
}

fn filled() -> Store {
    let mut store = init_schema();
    run(&mut store, 3, "s1", "echo a", 0, 100, false);
    run(&mut store, 1, "s1", "echo b", 1, 300, false);
    run(&mut store, 2, "s1", "echo a", 0, 200, false);
    run(&mut store, 4, "s2", "ls -l /tmp", 0, 50, false);
    run(&mut store, 5, "s1", "ls -l /var", 0, 50, true);
    run(&mut store, 6, "s1", "ls -l /var", 2, 10, false);
    run(&mut store, 7, "s1", "pwd", 0, 1, false);
    store
}

#[test]
fn session_statistics() {
    let store = filled();
    let stats = get_session_stats(&store, "s1");
    assert_eq!(stats.session_id, "s1");
    assert_eq!(stats.total_commands, 6);
    assert_eq!(stats.successes, 3);
    assert_eq!(stats.failures, 3);
    assert_eq!(stats.timeouts, 1);
    assert_eq!(stats.retries, 2);
    assert_eq!(stats.duration_total, 661);
    let none = get_session_stats(&store, "s9");
    assert_eq!(none.total_commands, 0);
    assert_eq!(none.retries, 0);
}

#[test]
fn busiest_templates_come_first() {
    let store = filled();
    let hot = get_hot_patterns(&store, "s1", 5);
    let shown: Vec<(&str, usize, usize, u128)> =
        hot.iter().map(|h| (h.pattern.as_str(), h.count, h.successes, h.duration_total)).collect();
    assert_eq!(
        shown,
        vec![("echo *", 3, 2, 600), ("ls -l *", 2, 0, 60), ("pwd", 1, 1, 1)]
    );
    let top = get_hot_patterns(&store, "s1", 1);
    assert_eq!(top.len(), 1);
    assert_eq!(top[0].pattern, "echo *");
    assert!(get_hot_patterns(&store, "s1", 0).is_empty());
    assert!(get_hot_patterns(&store, "nobody", 5).is_empty());
}

#[test]
fn overall_statistics() {
    let store = filled();
    let stats = get_stats(&store, "s2");
    assert_eq!(stats.total_observations, 7);
    assert_eq!(stats.unique_patterns, 5);
    assert_eq!(stats.total_weight, 7_000_000);
    assert_eq!(stats.oldest.as_deref(), Some("2024-01-01T00:00:00+00:00"));
    assert_eq!(stats.newest.as_deref(), Some("2024-01-07T00:00:00+00:00"));
    assert_eq!(stats.session.total_commands, 1);
    assert_eq!(stats.hot_patterns.len(), 1);
    let empty = get_stats(&init_schema(), "s");
    assert_eq!(empty.total_observations, 0);
    assert_eq!(empty.oldest, None);
    assert_eq!(empty.newest, None);
    assert_eq!(empty.total_weight, 0);
}

#[test]
fn pattern_query() {
    let store = filled();
    let known = query_pattern(&store, "ls   -l   /var");
    assert!(known.known);
    assert_eq!(known.observations, Some(2));
    assert_eq!(known.weighted_total, Some(2_000_000));
    assert_eq!(known.success_weight, Some(1_000_000));
    assert_eq!(known.timeout_weight, Some(1_000_000));
    assert_eq!(known.duration_total, Some(60));
    assert_eq!(known.streak, Some((-2, 0, 2)));
    let unknown = query_pattern(&store, "never ran");
    assert!(!unknown.known);
    assert_eq!(unknown.observations, None);
    assert_eq!(unknown.streak, None);
}

#[test]
fn ids_that_are_taken_are_refused() {
    let mut store = init_schema();
    let ids: Vec<String> = vec!["a".into(), "b".into(), "c".into(), "d".into()];
    assert_eq!(record_at(&mut store, "s", "ls | wc", 0, 1, false, "", &[0, 0], 10, 1, "t", &ids), Ok(()));
    assert_eq!(store.observations.len(), 3);
    assert_eq!(
        record_at(&mut store, "s", "pwd", 0, 1, false, "", &[0], 10, 1, "t", &ids),
        Err(RecordError::IdsNotUsable)
    );
    let short: Vec<String> = vec!["x".into()];
    assert_eq!(
        record_at(&mut store, "s", "pwd", 0, 1, false, "", &[0], 10, 1, "t", &short),
        Err(RecordError::IdsNotUsable)
    );
    let twice: Vec<String> = vec!["x".into(), "y".into(), "x".into(), "z".into()];
    assert_eq!(
        record_at(&mut store, "s", "ls | wc", 0, 1, false, "", &[0, 0], 10, 1, "t", &twice),
        Err(RecordError::IdsNotUsable)
    );
    assert_eq!(store.observations.len(), 3);
    assert_eq!(store.recent_commands.len(), 3);
    let fine: Vec<String> = vec!["x".into(), "x".into()];
    assert_eq!(record_at(&mut store, "s", "pwd", 0, 1, false, "", &[0], 10, 1, "t", &fine), Ok(()));
}

#[test]
fn recording_keeps_previews_and_drops_old_rows() {
    let mut store = init_schema();
    let long = "é".repeat(300);
    let ids: Vec<String> = vec!["a".into(), "b".into()];
    record_at(&mut store, "s", &long, 0, 9, false, &"o".repeat(600), &[0], 10, 1_000_000, "t", &ids).unwrap();
    assert_eq!(store.observations[0].command_preview, "é".repeat(200));
    assert_eq!(store.observations[0].output_snippet.as_deref(), Some("o".repeat(500).as_str()));
    assert_eq!(store.recent_commands[0].command_preview, "é".repeat(200));
    let later: u64 = 1_000_000 + 6_000_000_000;
    let ids: Vec<String> = vec!["c".into(), "d".into()];
    record_at(&mut store, "s", "pwd", 0, 9, false, "", &[0], 10, later, "t", &ids).unwrap();
    assert_eq!(store.recent_commands.len(), 2);
    assert_eq!(store.observations[1].output_snippet, None);
    let ids: Vec<String> = vec!["e".into(), "f".into()];
    record_at(&mut store, "s", "pwd", 0, 9, false, "", &[0], 10, later + 1, "t", &ids).unwrap();
    assert_eq!(store.recent_commands.len(), 2);
    assert_eq!(store.recent_commands[0].command_preview, "pwd");
    assert_eq!(store.observations.len(), 3);
}

#[test]
fn recent_rows_are_kept_for_ten_windows() {
    let minute: u64 = 60_000_000;
    let mut store = init_schema();
    let ids = |tag: &str| -> Vec<String> { vec![format!("{}-0", tag), format!("{}-1", tag)] };
    record_at(&mut store, "s", "pwd", 0, 1, false, "", &[0], 1, 0, "t", &ids("a")).unwrap();
    record_at(&mut store, "s", "pwd", 0, 1, false, "", &[0], 1, 10 * minute, "t", &ids("b")).unwrap();
    assert_eq!(store.recent_commands.len(), 2);
    record_at(&mut store, "s", "pwd", 0, 1, false, "", &[0], 1, 10 * minute + 1, "t", &ids("c")).unwrap();
    assert_eq!(store.recent_commands.len(), 2);
    record_at(&mut store, "s", "pwd", 0, 1, false, "", &[0], 3, 40 * minute, "t", &ids("d")).unwrap();
    assert_eq!(store.recent_commands.len(), 3);
    record_at(&mut store, "s", "pwd", 0, 1, false, "", &[0], 0, 40 * minute, "t", &ids("e")).unwrap();
    assert_eq!(store.recent_commands.len(), 2);
    assert_eq!(store.observations.len(), 5);
}
