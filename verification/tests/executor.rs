use zsh_tool_exec::executor::{
    child_setup_pipe, child_setup_pty, failed_to_start, finish, parse_pipestatus, poll_step,
    wrap_command, ChildStep, PollStep, WaitOutcome,
};

#[test]
fn wrapped_command_reports_on_descriptor_three() {
    assert_eq!(wrap_command("ls | wc"), "ls | wc; echo \"${pipestatus[*]}\" >&3");
    assert_eq!(wrap_command(""), "; echo \"${pipestatus[*]}\" >&3");
}

#[test]
fn pipestatus_is_read_from_the_report() {
    assert_eq!(parse_pipestatus("1 0 0"), vec![1, 0, 0]);
    assert_eq!(parse_pipestatus("  141\t0\n"), vec![141, 0]);
    assert_eq!(parse_pipestatus(""), Vec::<i32>::new());
    assert_eq!(parse_pipestatus("0 x 2 3.5 -1 +7"), vec![0, 2, -1, 7]);
    assert_eq!(
        parse_pipestatus("2147483647 2147483648 -2147483648 -2147483649 0000000000000000000012"),
        vec![2147483647, -2147483648, 12]
    );
    assert_eq!(parse_pipestatus("- + -- 1-"), Vec::<i32>::new());
}

#[test]
fn result_uses_the_report_or_the_exit_code() {
    let r = finish("1 0\n", 0, 1234, false);
    assert_eq!(r.pipestatus, vec![1, 0]);
    assert_eq!(r.exit_code, 0);
    assert_eq!(r.elapsed_ms, 1234);
    assert!(!r.timed_out);
    let r = finish("", 42, 5, false);
    assert_eq!(r.pipestatus, vec![42]);
    assert_eq!(r.exit_code, 42);
    let r = finish("", -1, 2000, true);
    assert_eq!(r.pipestatus, vec![-1]);
    assert_eq!(r.exit_code, -1);
    assert!(r.timed_out);
    let r = finish("0 0 3", 0, 1, false);
    assert_eq!(r.exit_code, 3);
    let failed = failed_to_start();
    assert_eq!(failed.pipestatus, Vec::<i32>::new());
    assert_eq!(failed.exit_code, 127);
    assert_eq!(failed.elapsed_ms, 0);
    assert!(!failed.timed_out);
}

#[test]
fn poll_decides_between_finish_kill_and_sleep() {
    assert_eq!(poll_step(false, WaitOutcome::Exited(7), 0, 10), PollStep::Finished { exit_code: 7, timed_out: false });
    assert_eq!(poll_step(true, WaitOutcome::Exited(7), 99, 10), PollStep::Finished { exit_code: 7, timed_out: false });
    assert_eq!(poll_step(false, WaitOutcome::Signaled(9), 0, 10), PollStep::Finished { exit_code: -1, timed_out: false });
    assert_eq!(poll_step(true, WaitOutcome::Signaled(9), 0, 10), PollStep::Finished { exit_code: 137, timed_out: false });
    assert_eq!(poll_step(true, WaitOutcome::Signaled(15), 0, 10), PollStep::Finished { exit_code: 143, timed_out: false });
    assert_eq!(poll_step(true, WaitOutcome::Other, 0, 10), PollStep::Finished { exit_code: -1, timed_out: false });
    assert_eq!(poll_step(false, WaitOutcome::StillAlive, 9, 10), PollStep::Sleep);
    assert_eq!(poll_step(false, WaitOutcome::StillAlive, 10, 10), PollStep::Kill { exit_code: -1, timed_out: true });
    assert_eq!(poll_step(true, WaitOutcome::StillAlive, 11, 10), PollStep::Kill { exit_code: -1, timed_out: true });
    assert_eq!(poll_step(true, WaitOutcome::StillAlive, 0, 0), PollStep::Kill { exit_code: -1, timed_out: true });
}

#[test]
fn child_closes_the_reading_end_before_it_takes_descriptor_three() {
    assert_eq!(
        child_setup_pipe(3, 4),
        vec![
            ChildStep::NewProcessGroup,
            ChildStep::Duplicate { from: 1, to: 2 },
            ChildStep::Close(3),
            ChildStep::Duplicate { from: 4, to: 3 },
            ChildStep::Close(4),
        ]
    );
    assert_eq!(
        child_setup_pipe(5, 3),
        vec![
            ChildStep::NewProcessGroup,
            ChildStep::Duplicate { from: 1, to: 2 },
            ChildStep::Close(5),
            ChildStep::Duplicate { from: 3, to: 3 },
        ]
    );
    assert_eq!(
        child_setup_pty(5, 6, 3, 4),
        vec![
            ChildStep::NewSession,
            ChildStep::TakeTerminal(6),
            ChildStep::Close(5),
            ChildStep::Duplicate { from: 6, to: 0 },
            ChildStep::Duplicate { from: 6, to: 1 },
            ChildStep::Duplicate { from: 6, to: 2 },
            ChildStep::Close(6),
            ChildStep::Close(3),
            ChildStep::Duplicate { from: 4, to: 3 },
            ChildStep::Close(4),
        ]
    );
    assert_eq!(child_setup_pty(5, 2, 6, 3).len(), 8);
}
