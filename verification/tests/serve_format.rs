use zsh_tool_exec::serve::format::{
    color_exit, format_task_output, truncate_output, TaskFrame, TaskStatus,
};

const GREEN: &str = "\x1b[32m";
const RED: &str = "\x1b[31m";
const YELLOW: &str = "\x1b[33m";
const CYAN: &str = "\x1b[36m";
const DIM: &str = "\x1b[2m";
const RESET: &str = "\x1b[0m";

fn frame(status: TaskStatus, output: &str) -> TaskFrame {
    TaskFrame {
        status,
        task_id: "abcd1234".to_string(),
        output: output.to_string(),
        error: None,
        elapsed_tenths: 12,
        has_stdin: false,
        new_bytes: 0,
        pipestatus: vec![],
        info: vec![],
        warning: vec![],
    }
}

#[test]
fn exit_codes_are_coloured_by_value() {
    assert_eq!(color_exit(0), format!("{}0{}", GREEN, RESET));
    assert_eq!(color_exit(1), format!("{}1{}", RED, RESET));
    assert_eq!(color_exit(128), format!("{}128{}", RED, RESET));
    assert_eq!(color_exit(129), format!("{}129{}", YELLOW, RESET));
    assert_eq!(color_exit(-1), format!("{}-1{}", RED, RESET));
    assert_eq!(color_exit(i32::MIN), format!("{}-2147483648{}", RED, RESET));
}

#[test]
fn long_output_is_truncated_with_a_note() {
    assert_eq!(truncate_output("hello", 5), "hello");
    assert_eq!(truncate_output("", 0), "");
    assert_eq!(
        truncate_output("hello world", 5),
        "hello\n\n[OUTPUT TRUNCATED - 11 bytes total, showing first 5]"
    );
    assert_eq!(
        truncate_output("héllo", 2),
        "h\n\n[OUTPUT TRUNCATED - 6 bytes total, showing first 2]"
    );
    assert_eq!(
        truncate_output("héllo", 3),
        "hé\n\n[OUTPUT TRUNCATED - 6 bytes total, showing first 3]"
    );
    assert_eq!(truncate_output("日本", 6), "日本");
    assert_eq!(
        truncate_output("日本", 5),
        "日\n\n[OUTPUT TRUNCATED - 6 bytes total, showing first 5]"
    );
}

#[test]
fn completed_frame_shows_output_and_exit() {
    let mut f = frame(TaskStatus::Completed, "hello\n\n");
    f.pipestatus = vec![0];
    assert_eq!(
        format_task_output(&f),
        format!(
            "hello\n{g}[COMPLETED{r} task_id=abcd1234 elapsed=1.2s exit={g}0{r}{g}]{r}",
            g = GREEN,
            r = RESET
        )
    );
    let mut silent = frame(TaskStatus::Completed, " \n");
    silent.elapsed_tenths = 0;
    assert_eq!(
        format_task_output(&silent),
        format!(
            "{d}(no output){r}\n{g}[COMPLETED{r} task_id=abcd1234 elapsed=0.0s exit={g}0{r}{g}]{r}",
            d = DIM,
            g = GREEN,
            r = RESET
        )
    );
}

#[test]
fn failed_frame_shows_every_exit_code_of_a_pipeline() {
    let mut f = frame(TaskStatus::Completed, "out");
    f.pipestatus = vec![0, 141, 42];
    f.elapsed_tenths = 1234;
    f.info = vec!["No history".to_string(), "Second".to_string()];
    f.warning = vec!["pipe segment 2 exited 141".to_string()];
    assert_eq!(
        format_task_output(&f),
        format!(
            "out\n{red}[FAILED{r} task_id=abcd1234 elapsed=123.4s exit={red}42{r} pipestatus=[{g}0{r},{y}141{r},{red}42{r}]{red}]{r}\n{d}[info: A.L.A.N.: No history | Second]{r}\n{y}[warning: A.L.A.N.: pipe segment 2 exited 141]{r}",
            red = RED,
            g = GREEN,
            y = YELLOW,
            d = DIM,
            r = RESET
        )
    );
}

#[test]
fn running_frame_shows_what_is_new() {
    let mut f = frame(TaskStatus::Running, "partial");
    f.has_stdin = true;
    let hint = "Use zsh_poll to continue, zsh_send to input, zsh_kill to stop.";
    assert_eq!(
        format_task_output(&f),
        format!(
            "partial\n{c}[RUNNING{r} task_id=abcd1234 elapsed=1.2s stdin=yes{c}]{r}\n{hint}",
            c = CYAN,
            r = RESET,
            hint = hint
        )
    );
    f.has_stdin = false;
    f.output = String::new();
    for (bytes, shown) in [
        (1u64, " — 1 B new"),
        (1023, " — 1023 B new"),
        (1024, " — 1.0 KB new"),
        (1280, " — 1.2 KB new"),
        (1281, " — 1.3 KB new"),
        (1792, " — 1.8 KB new"),
        (2048, " — 2.0 KB new"),
        (10 * 1024 * 1024, " — 10240.0 KB new"),
    ] {
        f.new_bytes = bytes;
        let expected_number = if bytes >= 1024 {
            format!(" — {:.1} KB new", bytes as f64 / 1024.0)
        } else {
            format!(" — {} B new", bytes)
        };
        assert_eq!(shown, expected_number);
        assert_eq!(
            format_task_output(&f),
            format!(
                "{c}[RUNNING{r} task_id=abcd1234 elapsed=1.2s stdin=no{shown}{c}]{r}\n{hint}",
                c = CYAN,
                r = RESET,
                shown = shown,
                hint = hint
            )
        );
    }
}

#[test]
fn other_frames_show_their_status() {
    let mut f = frame(TaskStatus::Timeout, "");
    assert_eq!(
        format_task_output(&f),
        format!("{y}[TIMEOUT{r} task_id=abcd1234 elapsed=1.2s{y}]{r}", y = YELLOW, r = RESET)
    );
    f.status = TaskStatus::Killed;
    f.output = "bye".to_string();
    assert_eq!(
        format_task_output(&f),
        format!("bye\n{red}[KILLED{r} task_id=abcd1234 elapsed=1.2s{red}]{r}", red = RED, r = RESET)
    );
    f.status = TaskStatus::Error;
    f.output = String::new();
    f.task_id = String::new();
    f.elapsed_tenths = 0;
    f.error = Some("NEVERHANG: Circuit OPEN".to_string());
    assert_eq!(
        format_task_output(&f),
        format!(
            "{red}[error]{r} NEVERHANG: Circuit OPEN\n{red}[ERROR{r} task_id= elapsed=0.0s{red}]{r}",
            red = RED,
            r = RESET
        )
    );
}
