use zsh_tool_exec::alan::init_schema;
use zsh_tool_exec::alan::record;
use zsh_tool_exec::alan::streak::{update_streak, Streak};

#[test]
fn test_streak_created_on_first_run() {
    let mut store = init_schema();
    record(&mut store, "str1", "echo streaktest", 0, 5, false, "", &[0], 10).unwrap();
    assert_eq!(store.streaks[0].streak.current_streak, 1, "first success = streak 1");
}

#[test]
fn test_streak_increments_on_repeated_success() {
    let mut store = init_schema();
    for _ in 0..3 {
        record(&mut store, "str2", "echo repeat", 0, 5, false, "", &[0], 10).unwrap();
    }
    assert_eq!(store.streaks.len(), 1);
    assert_eq!(store.streaks[0].streak.current_streak, 3, "3 successes = streak 3");
}

#[test]
fn test_streak_resets_on_failure() {
    let mut store = init_schema();
    for cmd in ["echo ok", "echo ok", "false"] {
        let exit = if cmd == "false" { 1 } else { 0 };
        record(&mut store, "str3", cmd, exit, 5, false, "", &[exit], 10).unwrap();
    }
    let rows: Vec<(String, i64, i64)> = store
        .streaks
        .iter()
        .map(|r| {
            (r.command_hash.clone(), r.streak.current_streak, r.streak.longest_success_streak)
        })
        .collect();
    let fail_streak = rows.iter().find(|r| r.1 < 0);
    assert!(fail_streak.is_some(), "should have negative streak for 'false'");
    assert_eq!(fail_streak.unwrap().1, -1);
    let ok_streak = rows.iter().find(|r| r.1 > 0).unwrap();
    assert_eq!(ok_streak.1, 2);
    assert_eq!(ok_streak.2, 2);
}

#[test]
fn a_restart_counts_for_the_longest_streak() {
    let failed = update_streak(None, false);
    let back = update_streak(Some(failed), true);
    assert_eq!(back.current_streak, 1);
    assert_eq!(back.longest_success_streak, 1);
    assert_eq!(back.longest_fail_streak, 1);
    let again = update_streak(Some(back), false);
    assert_eq!(again.current_streak, -1);
    assert_eq!(again.longest_success_streak, 1);
    assert_eq!(again.longest_fail_streak, 1);
    let never_failed = Streak {
        current_streak: 3,
        longest_success_streak: 3,
        longest_fail_streak: 0,
        last_result: true,
    };
    assert_eq!(update_streak(Some(never_failed), false).longest_fail_streak, 1);
}

#[test]
fn streak_counts_successes_and_resets_on_failure() {
    let mut streak: Option<Streak> = None;
    for k in 1..=5 {
        let next = update_streak(streak, true);
        assert_eq!(next.current_streak, k);
        assert!(next.longest_success_streak >= k);
        assert!(next.last_result);
        streak = Some(next);
    }
    let failed = update_streak(streak, false);
    assert_eq!(failed.current_streak, -1);
    assert_eq!(failed.longest_success_streak, 5);
    assert_eq!(failed.longest_fail_streak, 1);
    let again = update_streak(Some(failed), false);
    assert_eq!(again.current_streak, -2);
    assert_eq!(again.longest_fail_streak, 2);
    let back = update_streak(Some(again), true);
    assert_eq!(back.current_streak, 1);
    assert_eq!(back.longest_success_streak, 5);
    assert_eq!(back.longest_fail_streak, 2);
}

#[test]
fn first_failure_starts_at_minus_one() {
    let first = update_streak(None, false);
    assert_eq!(
        first,
        Streak {
            current_streak: -1,
            longest_success_streak: 0,
            longest_fail_streak: 1,
            last_result: false
        }
    );
}

#[test]
fn streak_stops_at_the_limit() {
    let top = Streak {
        current_streak: i64::MAX,
        longest_success_streak: i64::MAX,
        longest_fail_streak: 0,
        last_result: true,
    };
    assert_eq!(update_streak(Some(top), true).current_streak, i64::MAX);
    let bottom = Streak {
        current_streak: -i64::MAX,
        longest_success_streak: 0,
        longest_fail_streak: i64::MAX,
        last_result: false,
    };
    assert_eq!(update_streak(Some(bottom), false).current_streak, -i64::MAX);
}

#[test]
fn timed_out_run_counts_as_failure() {
    let mut store = init_schema();
    record(&mut store, "s", "sleep 100", 0, 5, true, "", &[0], 10).unwrap();
    assert_eq!(store.streaks[0].streak.current_streak, -1);
    assert!(!store.recent_commands[0].success);
}
