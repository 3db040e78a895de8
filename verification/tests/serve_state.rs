use zsh_tool_exec::config::Config;
use zsh_tool_exec::serve::combine_insights;
use zsh_tool_exec::serve::format::TaskStatus;
use zsh_tool_exec::serve::handlers::{
    handle_tool_call, EndedTask, MetaFile, PollReply, SpawnPlan, Tool, ZshCall, ZshStart,
};
use zsh_tool_exec::serve::protocol::{
    handle_request, initialize_result, Framing, MessageReader, Method, ReadStep,
};
use zsh_tool_exec::serve::tools::{list_tools, ParamKind};
use zsh_tool_exec::serve::ServerState;

const SECOND: u64 = 1_000_000;

fn server() -> ServerState {
    ServerState::new(Config::default(), "session-1")
}

fn call(command: &str) -> ZshCall {
    ZshCall { command: Some(command.to_string()), timeout: None, yield_after_ms: None, pty: None }
}

fn plan(state: &mut ServerState, command: &str, uuid: &str) -> SpawnPlan {
    match state.begin_zsh_at(&call(command), uuid, 5 * SECOND) {
        ZshStart::Spawn(plan) => plan,
        ZshStart::Reply(reply) => panic!("refused: {}", reply.text),
    }
}

fn start(state: &mut ServerState, command: &str, uuid: &str) -> String {
    let p = plan(state, command, uuid);
    state.start_running(&p, "", 4242, 5 * SECOND, &vec![], 5).unwrap();
    p.task_id
}

#[test]
fn test_initialize() {
    let result = initialize_result("zsh-tool", "0.1");
    assert_eq!(result.protocol_version, "2024-11-05");
    assert_eq!(result.server_name, "zsh-tool");
    assert_eq!(result.server_version, "0.1");
    assert_eq!(handle_request("initialize").ok(), Some(Method::Initialize));
}

#[test]
fn test_tools_list() {
    assert_eq!(handle_request("tools/list").ok(), Some(Method::ToolsList));
    let tools = list_tools(3600, 600, 2000);
    assert_eq!(tools.len(), 10, "Expected 10 tools");
    let names: Vec<&str> = tools.iter().map(|t| t.name.as_str()).collect();
    for name in [
        "zsh",
        "zsh_poll",
        "zsh_send",
        "zsh_kill",
        "zsh_tasks",
        "zsh_health",
        "zsh_alan_stats",
        "zsh_alan_query",
        "zsh_neverhang_status",
        "zsh_neverhang_reset",
    ] {
        assert!(names.contains(&name));
        assert!(handle_tool_call(name).is_ok());
    }
}

#[test]
fn test_zsh_echo() {
    let mut state = server();
    let p = plan(&mut state, "echo hello-from-rust-mcp", "0123456789abcdef");
    let meta = MetaFile { pipestatus: Some(vec![0]), timed_out: Some(false) };
    let text = state.finalize_task(
        &p.task_id,
        &p.command,
        "hello-from-rust-mcp\n",
        3,
        &vec![],
        Some(meta),
        true,
        6 * SECOND,
    );
    assert!(text.contains("hello-from-rust-mcp"), "Output should contain echo text, got: {}", text);
    assert!(text.contains("COMPLETED"), "Should show COMPLETED status, got: {}", text);
    assert!(text.contains("exit=\x1b[32m0\x1b[0m"));
}

#[test]
fn test_zsh_exit_code() {
    let mut state = server();
    let p = plan(&mut state, "exit 42", "0123456789abcdef");
    let meta = MetaFile { pipestatus: Some(vec![42]), timed_out: Some(false) };
    let text = state.finalize_task(&p.task_id, &p.command, "", 3, &vec![], Some(meta), true, 6 * SECOND);
    assert!(text.contains("FAILED"), "Non-zero exit should show FAILED, got: {}", text);
    assert!(text.contains("exit="), "Should show exit code");
    assert!(text.contains("exit=\x1b[31m42\x1b[0m"));
}

#[test]
fn test_ping() {
    assert_eq!(handle_request("ping").ok(), Some(Method::Ping));
    assert_eq!(handle_request("tools/call").ok(), Some(Method::ToolsCall));
}

#[test]
fn test_unknown_method() {
    let error = handle_request("nonexistent/method").err().expect("Should return error");
    assert_eq!(error.code, -32601);
    assert_eq!(error.message, "Method not found: nonexistent/method");
}

#[test]
fn test_unknown_tool() {
    let reply = handle_tool_call("nonexistent_tool").err().expect("Should be an error response");
    assert!(reply.is_error);
    assert_eq!(reply.text, "Unknown tool: nonexistent_tool");
    assert_eq!(handle_tool_call("zsh_kill").ok(), Some(Tool::ZshKill));
    assert!(handle_tool_call("ZSH").is_err());
}

#[test]
fn test_health() {
    let state = server();
    assert_eq!(state.active_tasks(), 0);
    let status = state.circuit_breaker.get_status();
    assert_eq!(status.state, "closed");
}

#[test]
fn test_neverhang_status_and_reset() {
    let mut state = server();
    assert_eq!(state.circuit_breaker.get_status().state, "closed");
    for hash in ["a", "b", "c"] {
        state.circuit_breaker.record_timeout_at(hash, SECOND);
    }
    assert_eq!(state.circuit_breaker.get_status().state, "open");
    state.handle_neverhang_reset();
    let status = state.circuit_breaker.get_status();
    assert_eq!(status.state, "closed");
    assert_eq!(status.recent_failures, 0);
}

#[test]
fn test_tasks_list_empty() {
    let state = server();
    assert!(state.handle_list_tasks().is_empty());
}

#[test]
fn test_yield_poll_complete() {
    let mut state = server();
    let id = start(&mut state, "sleep 2 && echo done-after-sleep", "11112222-3333");
    assert_eq!(id, "11112222");
    let first = match state.handle_poll(&id, "", false, 7) {
        PollReply::Reply(reply) => reply.text,
        PollReply::Finalize { .. } => panic!("not finished yet"),
    };
    assert!(first.contains("RUNNING"), "Should yield as RUNNING, got: {}", first);
    assert!(first.contains("task_id="), "Should include task_id");
    let (command, output, pre, _meta_path) = match state.handle_poll(&id, "done-after-sleep\n", true, 30) {
        PollReply::Finalize { command, output, pre_insights, meta_path } => {
            (command, output, pre_insights, meta_path)
        }
        PollReply::Reply(reply) => panic!("should finish, got: {}", reply.text),
    };
    let meta = MetaFile { pipestatus: Some(vec![0, 0]), timed_out: Some(false) };
    let text = state.finalize_task(&id, &command, &output, 30, &pre, Some(meta), true, 9 * SECOND);
    assert!(text.contains("COMPLETED"), "Should be COMPLETED after sleep, got: {}", text);
    assert!(text.contains("done-after-sleep"), "Should contain command output, got: {}", text);
    let answered = state.prepend_events(&text);
    assert!(!answered.contains("[notify]"));
}

#[test]
fn test_background_completion_notifies_on_next_tool_call() {
    let mut state = server();
    let id = start(&mut state, "sleep 0.4 && echo notify-test", "aaaabbbbcccc");
    assert_eq!(state.running_ids(), vec![id.clone()]);
    let done = state.collect_if_done(&id, "notify-test\n");
    assert!(done.is_some());
    let meta = MetaFile { pipestatus: Some(vec![0]), timed_out: Some(false) };
    state.finalize_task(&id, "sleep 0.4 && echo notify-test", "notify-test\n", 8, &vec![], Some(meta), false, 9 * SECOND);
    assert!(state.running_ids().is_empty());
    let health = state.prepend_events("{\"status\": \"healthy\"}");
    assert!(health.contains("[notify]"), "Expected [notify] in next tool call response, got:\n{}", health);
    assert!(
        health.contains("completed") || health.contains("failed"),
        "Expected completed/failed status in notify, got:\n{}",
        health
    );
    assert_eq!(
        health,
        "\x1b[2m[notify]\x1b[0m task 'aaaabbbb' completed (exit=0, 0.8s) — use zsh_poll to retrieve output\n\n{\"status\": \"healthy\"}"
    );
    let again = state.prepend_events("{\"status\": \"healthy\"}");
    assert!(!again.contains("[notify]"), "Notification should fire only once, but appeared again:\n{}", again);
    assert_eq!(again, "{\"status\": \"healthy\"}");
}

#[test]
fn test_direct_poll_does_not_generate_notification() {
    let mut state = server();
    let id = start(&mut state, "sleep 0.4 && echo direct-poll-test", "ddddeeeeffff");
    state.collect_if_done(&id, "direct-poll-test\n").unwrap();
    let meta = MetaFile { pipestatus: Some(vec![0]), timed_out: None };
    state.finalize_task(&id, "x", "direct-poll-test\n", 8, &vec![], Some(meta), false, 9 * SECOND);
    assert_eq!(state.event_queue.len(), 1);
    let text = match state.handle_poll(&id, "", true, 9) {
        PollReply::Reply(reply) => reply.text,
        PollReply::Finalize { .. } => panic!("already closed"),
    };
    assert!(text.contains("COMPLETED"), "poll should return COMPLETED, got: {}", text);
    assert!(text.contains("direct-poll-test"));
    let answered = state.prepend_events(&text);
    assert!(!answered.contains("[notify]"), "poll result should not contain [notify], got: {}", answered);
    let health = state.prepend_events("healthy");
    assert!(!health.contains("[notify]"), "No notify expected after direct poll, got:\n{}", health);
}

#[test]
fn test_poll_running_task_shows_output_delta() {
    let mut state = server();
    let id = start(&mut state, "for i in 1 2 3; do echo line; done", "1234567890");
    let fresh = "output line 1\noutput line 2\n";
    let text = match state.handle_poll(&id, fresh, false, 7) {
        PollReply::Reply(reply) => reply.text,
        PollReply::Finalize { .. } => panic!("still running"),
    };
    assert!(text.contains("RUNNING"));
    assert!(text.contains(" — 28 B new"), "Running poll should show output delta, got:\n{}", text);
    assert!(text.contains("output line"));
    let again = match state.handle_poll(&id, "", false, 8) {
        PollReply::Reply(reply) => reply.text,
        PollReply::Finalize { .. } => panic!("still running"),
    };
    assert!(!again.contains("KB new") && !again.contains("B new"), "immediate re-poll should show no delta, got:\n{}", again);
    assert_eq!(state.tasks.tasks[0].last_poll_offset, 28);
    assert_eq!(state.tasks.tasks[0].output_buffer, fresh);
}

#[test]
fn breaker_refuses_the_fourth_call_after_three_timeouts() {
    let mut state = server();
    for (k, command) in ["sleep 100", "sleep 200 | cat", "yes"].iter().enumerate() {
        let p = plan(&mut state, command, &format!("{:08}", k));
        let meta = MetaFile { pipestatus: Some(vec![-1]), timed_out: Some(true) };
        state.finalize_task(&p.task_id, command, "", 6000, &vec![], Some(meta), true, (10 + k as u64) * SECOND);
    }
    match state.begin_zsh_at(&call("echo hi"), "ffffffff", 20 * SECOND) {
        ZshStart::Reply(reply) => {
            assert!(!reply.is_error);
            assert!(reply.text.contains("[ERROR"));
            assert!(reply.text.contains("NEVERHANG: Circuit OPEN"));
            assert!(reply.text.contains("due to 3 recent timeouts. Retry in 292s"));
        }
        ZshStart::Spawn(_) => panic!("the breaker should refuse"),
    }
    state.handle_neverhang_reset();
    assert!(matches!(state.begin_zsh_at(&call("echo hi"), "ffffffff", 21 * SECOND), ZshStart::Spawn(_)));
}

#[test]
fn zsh_call_is_planned() {
    let mut state = server();
    state.db_path = "/data/alan.db".to_string();
    let request = ZshCall {
        command: Some("ls -la".to_string()),
        timeout: Some(5000),
        yield_after_ms: Some(500),
        pty: Some(true),
    };
    match state.begin_zsh_at(&request, "0a1b2c3d-4e5f-6789", SECOND) {
        ZshStart::Spawn(p) => {
            assert_eq!(p.task_id, "0a1b2c3d");
            assert_eq!(p.meta_path, "/tmp/zsh-tool-meta-0a1b2c3d.json");
            assert_eq!(p.timeout, 600);
            assert_eq!(p.yield_after_ms, 500);
            assert!(p.pipe_stdin);
            assert_eq!(
                p.args,
                vec![
                    "exec", "--meta", "/tmp/zsh-tool-meta-0a1b2c3d.json", "--timeout", "600", "--db",
                    "/data/alan.db", "--session-id", "session-1", "--pty", "--", "ls -la"
                ]
            );
        }
        ZshStart::Reply(reply) => panic!("refused: {}", reply.text),
    }
    let missing = ZshCall { command: None, timeout: None, yield_after_ms: None, pty: None };
    match state.begin_zsh_at(&missing, "x", SECOND) {
        ZshStart::Reply(reply) => {
            assert!(reply.is_error);
            assert_eq!(reply.text, "Missing required parameter: command");
        }
        ZshStart::Spawn(_) => panic!("no command"),
    }
    match state.begin_zsh(&call("true")) {
        ZshStart::Spawn(p) => {
            assert_eq!(p.task_id.len(), 8);
            assert_eq!(p.yield_after_ms, 2000);
            assert!(!p.args.contains(&"--pty".to_string()));
        }
        ZshStart::Reply(reply) => panic!("refused: {}", reply.text),
    }
}

#[test]
fn send_and_kill_complain_about_tasks_that_cannot_take_them() {
    let mut state = server();
    assert_eq!(state.handle_send("nope", "x").err().unwrap(), "Unknown task: nope");
    assert_eq!(state.handle_kill("nope", "", 1).err().unwrap(), "Unknown task: nope");
    let id = start(&mut state, "cat", "pipe0000");
    assert_eq!(
        state.handle_send(&id, "x").err().unwrap(),
        "Task pipe0000 has no stdin (not a PTY task)"
    );
    let mut with_pty = call("cat");
    with_pty.pty = Some(true);
    let p = match state.begin_zsh_at(&with_pty, "term0000", SECOND) {
        ZshStart::Spawn(p) => p,
        ZshStart::Reply(_) => panic!(),
    };
    let text = state.start_running(&p, "", 1, SECOND, &vec![], 20).unwrap();
    assert!(text.contains("stdin=yes"));
    assert!(state.start_running(&p, "", 1, SECOND, &vec![], 20).is_none());
    assert_eq!(state.handle_send("term0000", "hello").ok().unwrap(), "hello\n");
    let rows = state.handle_list_tasks();
    assert_eq!(rows.len(), 2);
    assert_eq!(rows[1].task_id, "term0000");
    assert_eq!(rows[1].status, TaskStatus::Running);
    let killed = state.handle_kill("term0000", "last words", 33).ok().unwrap();
    assert_eq!(killed, "last words\n\x1b[31m[KILLED\x1b[0m task_id=term0000 elapsed=3.3s\x1b[31m]\x1b[0m");
    assert_eq!(state.handle_list_tasks().len(), 1);
    assert_eq!(state.handle_kill("term0000", "", 1).err().unwrap(), "Unknown task: term0000");
    state.collect_if_done(&id, "").unwrap();
    assert_eq!(state.handle_send(&id, "x").err().unwrap(), "Task pipe0000 is not running");
    assert_eq!(state.handle_kill(&id, "", 1).err().unwrap(), "Task pipe0000 is not running");
    assert!(state.collect_if_done(&id, "").is_none());
}

#[test]
fn long_commands_are_cut_in_the_list() {
    let mut state = server();
    let long = "x".repeat(51);
    start(&mut state, &long, "long0000");
    start(&mut state, &"y".repeat(50), "fits0000");
    let rows = state.handle_list_tasks();
    assert_eq!(rows[0].command, format!("{}...", "x".repeat(47)));
    assert_eq!(rows[1].command, "y".repeat(50));
}

#[test]
fn insights_are_grouped_by_level() {
    let pre = vec![
        ("info".to_string(), "a".to_string()),
        ("warning".to_string(), "b".to_string()),
    ];
    let post = vec![
        ("warning".to_string(), "c".to_string()),
        ("info".to_string(), "d".to_string()),
        ("note".to_string(), "e".to_string()),
    ];
    let (info, warning) = combine_insights(&pre, &post);
    assert_eq!(info, vec!["a", "d", "e"]);
    assert_eq!(warning, vec!["b", "c"]);
}

#[test]
fn events_are_queued_suppressed_and_drained() {
    let mut state = server();
    state.enqueue_event("t1", 0, 12);
    state.enqueue_event("t2", 3, 205);
    state.enqueue_event("t1", 1, 7);
    state.suppress_event_for_task("t1");
    assert_eq!(state.event_queue.len(), 1);
    state.enqueue_event("t3", 0, 0);
    assert_eq!(
        state.drain_events(),
        "\x1b[33m[notify]\x1b[0m task 't2' failed (exit=3, 20.5s) — use zsh_poll to retrieve output\n\x1b[2m[notify]\x1b[0m task 't3' completed (exit=0, 0.0s) — use zsh_poll to retrieve output"
    );
    assert!(state.event_queue.is_empty());
    assert_eq!(state.drain_events(), "");
}

#[test]
fn missing_meta_file_counts_as_success() {
    let mut state = server();
    let text = state.finalize_task("t", "ls", "x", 1, &vec![], None, false, SECOND);
    assert!(text.contains("[COMPLETED"));
    assert_eq!(state.event_queue[0].exit_code, 0);
    let text = state.finalize_task(
        "t",
        "grep a b",
        "",
        1,
        &vec![("info".to_string(), "before".to_string())],
        Some(MetaFile { pipestatus: Some(vec![]), timed_out: None }),
        true,
        SECOND,
    );
    assert!(text.contains("[COMPLETED"));
    assert!(text.contains("[info: A.L.A.N.: before]"));
}

#[test]
fn framing_is_detected_from_the_first_line() {
    let mut reader = MessageReader::new();
    assert_eq!(reader.mode, Framing::Undetected);
    assert_eq!(reader.write_message("{}"), "Content-Length: 2\r\n\r\n{}");
    assert!(matches!(reader.on_line(Some("\r\n")), ReadStep::ReadLine));
    assert!(matches!(reader.on_line(Some("Content-Length: 17\r\n")), ReadStep::ReadLine));
    assert_eq!(reader.mode, Framing::Framed);
    assert!(matches!(reader.on_line(Some("Content-Type: x\r\n")), ReadStep::ReadLine));
    assert!(matches!(reader.on_line(Some("\r\n")), ReadStep::ReadBody(17)));
    assert_eq!(reader.write_message("{\"a\":\"é\"}"), "Content-Length: 10\r\n\r\n{\"a\":\"é\"}");
    assert!(matches!(reader.on_line(Some("Content-Length:+3\n")), ReadStep::ReadLine));
    assert!(matches!(reader.on_line(Some(" \n")), ReadStep::ReadBody(3)));
    assert!(matches!(reader.on_line(Some("{\"jsonrpc\":\"2.0\"}\n")), ReadStep::Stop));
    assert_eq!(reader.mode, Framing::Framed);
    assert!(matches!(reader.on_line(None), ReadStep::Stop));

    let mut bare = MessageReader::new();
    match bare.on_line(Some("  {\"jsonrpc\":\"2.0\"}\n")) {
        ReadStep::Parse(text) => assert_eq!(text, "{\"jsonrpc\":\"2.0\"}"),
        _ => panic!("a line of JSON"),
    }
    assert_eq!(bare.mode, Framing::Bare);
    assert_eq!(bare.write_message("{}"), "{}\n");
    assert!(matches!(bare.on_line(Some("\n")), ReadStep::ReadLine));
    assert!(matches!(bare.on_line(Some("{}\n")), ReadStep::Parse(_)));
    assert!(matches!(bare.on_line(Some("Content-Length: 5\n")), ReadStep::Stop));
    assert_eq!(bare.mode, Framing::Bare);

    let mut other = MessageReader::new();
    assert!(matches!(other.on_line(Some("hello\n")), ReadStep::Stop));
    assert!(matches!(other.on_line(Some("Content-Length: many\n")), ReadStep::Stop));
    assert!(matches!(other.on_line(Some("Content-Length:\n")), ReadStep::Stop));
    assert_eq!(other.mode, Framing::Undetected);
}

fn ended(task_id: &str, remaining: &str, codes: &[i32], elapsed_tenths: u64) -> EndedTask {
    EndedTask {
        task_id: task_id.to_string(),
        remaining: remaining.to_string(),
        meta: Some(MetaFile { pipestatus: Some(codes.to_vec()), timed_out: Some(false) }),
        elapsed_tenths,
    }
}

#[test]
fn a_task_closed_by_the_sweep_keeps_its_exit_codes() {
    let mut state = server();
    let id = start(&mut state, "sleep 1; exit 3", "eeee3333");
    state.check_and_finalize_background_tasks(&vec![ended(&id, "bye\n", &[0, 3], 12)], 9 * SECOND);
    assert_eq!(state.tasks.tasks[0].status, TaskStatus::Completed);
    assert_eq!(state.tasks.tasks[0].pipestatus, vec![0, 3]);
    assert_eq!(state.tasks.tasks[0].output_buffer, "bye\n");
    assert_eq!(state.event_queue.len(), 1);
    assert_eq!(state.event_queue[0].exit_code, 3);
    let reply = match state.handle_poll(&id, "", false, 15) {
        PollReply::Reply(reply) => reply,
        PollReply::Finalize { .. } => panic!("already closed"),
    };
    assert_eq!(
        reply.text,
        "bye\n\x1b[31m[FAILED\x1b[0m task_id=eeee3333 elapsed=1.5s exit=\x1b[31m3\x1b[0m pipestatus=[\x1b[32m0\x1b[0m,\x1b[31m3\x1b[0m]\x1b[31m]\x1b[0m"
    );
    let answer = state.answer_tool_call(reply);
    assert!(!answer.text.contains("[notify]"));
    assert!(!answer.is_error);
    let later = state.answer_tool_call(zsh_tool_exec::serve::protocol::text_content("healthy"));
    assert_eq!(later.text, "healthy");
}

#[test]
fn the_sweep_tells_of_each_ended_task_once() {
    let mut state = server();
    let a = start(&mut state, "sleep 1", "aaaa0000");
    let b = start(&mut state, "sleep 2", "bbbb0000");
    let c = start(&mut state, "sleep 3", "cccc0000");
    state.check_and_finalize_background_tasks(
        &vec![ended(&b, "", &[1], 20), ended("unknown", "", &[0], 1), ended(&a, "", &[0], 10), ended(&b, "", &[9], 21)],
        9 * SECOND,
    );
    assert_eq!(state.running_ids(), vec![c.clone()]);
    let answer = state.answer_tool_call(zsh_tool_exec::serve::protocol::text_content("x"));
    assert_eq!(
        answer.text,
        "\x1b[33m[notify]\x1b[0m task 'bbbb0000' failed (exit=1, 2.0s) — use zsh_poll to retrieve output\n\x1b[2m[notify]\x1b[0m task 'aaaa0000' completed (exit=0, 1.0s) — use zsh_poll to retrieve output\n\nx"
    );
    assert_eq!(state.tasks.tasks[1].pipestatus, vec![1]);
    let again = state.answer_tool_call(zsh_tool_exec::serve::protocol::text_content("x"));
    assert_eq!(again.text, "x");
    assert!(state.tasks.is_well_formed());
}

#[test]
fn tool_descriptions_name_the_defaults() {
    let tools = list_tools(3600, 600, 2000);
    let zsh = &tools[0];
    assert_eq!(zsh.required, vec!["command"]);
    let names: Vec<&str> = zsh.properties.iter().map(|p| p.name.as_str()).collect();
    assert_eq!(names, vec!["command", "timeout", "yield_after", "description", "pty"]);
    assert_eq!(zsh.properties[1].kind, ParamKind::Integer);
    assert_eq!(
        zsh.properties[1].description,
        "Max execution time in seconds (default: 3600, max: 600)"
    );
    assert_eq!(
        zsh.properties[2].description,
        "Return control after this many seconds if still running (default: 2)"
    );
    assert_eq!(zsh.properties[4].kind, ParamKind::Boolean);
    for (ms, shown) in [(500u64, "0.5"), (1250, "1.25"), (1001, "1.001"), (0, "0"), (10_100, "10.1")] {
        let tools = list_tools(1, 2, ms);
        assert_eq!(
            tools[0].properties[2].description,
            format!("Return control after this many seconds if still running (default: {})", shown)
        );
        assert_eq!(shown, format!("{}", ms as f64 / 1000.0));
    }
    assert_eq!(tools[2].required, vec!["task_id", "input"]);
    assert!(tools[4].properties.is_empty() && tools[4].required.is_empty());
    assert_eq!(tools[7].properties[0].name, "command");
}

#[test]
fn a_poll_call_answers_with_the_real_result_and_no_notice() {
    let mut state = server();
    let x = start(&mut state, "sleep 1; exit 3", "xxxx0000");
    let y = start(&mut state, "sleep 1", "yyyy0000");
    let swept = vec![ended(&x, "out\n", &[3], 11), ended(&y, "", &[0], 10)];
    let reply = state.poll_call(&swept, &x, "", false, None, 20, 9 * SECOND);
    assert!(!reply.is_error);
    assert_eq!(
        reply.text,
        "\x1b[2m[notify]\x1b[0m task 'yyyy0000' completed (exit=0, 1.0s) — use zsh_poll to retrieve output\n\nout\n\x1b[31m[FAILED\x1b[0m task_id=xxxx0000 elapsed=2.0s exit=\x1b[31m3\x1b[0m\x1b[31m]\x1b[0m"
    );
    assert!(state.event_queue.is_empty());
    let again = state.poll_call(&vec![], &x, "", false, None, 30, 10 * SECOND);
    assert!(!again.text.contains("[notify]"));
    assert!(again.text.contains("[FAILED"));
    let unknown = state.poll_call(&vec![], "nobody", "", false, None, 0, 10 * SECOND);
    assert!(unknown.is_error);
    assert_eq!(unknown.text, "Unknown task: nobody");
}

#[test]
fn a_poll_call_closes_a_task_that_has_just_ended() {
    let mut state = server();
    let x = start(&mut state, "sleep 9", "zzzz0000");
    let meta = MetaFile { pipestatus: Some(vec![-1]), timed_out: Some(true) };
    let running = state.poll_call(&vec![], &x, "ab", false, None, 5, 9 * SECOND);
    assert!(running.text.contains("[RUNNING") && running.text.contains(" — 2 B new"));
    let reply = state.poll_call(&vec![], &x, "cd", true, Some(meta), 100, 9 * SECOND);
    assert!(reply.text.starts_with("abcd\n"));
    assert!(reply.text.contains("[FAILED") && reply.text.contains("exit=\x1b[31m-1\x1b[0m"));
    assert_eq!(state.tasks.tasks[0].status, TaskStatus::Completed);
    assert_eq!(state.tasks.tasks[0].pipestatus, vec![-1]);
    assert_eq!(state.tasks.tasks[0].output_buffer, "abcd");
    assert_eq!(state.circuit_breaker.failures.len(), 1);
    assert!(state.event_queue.is_empty());
    assert!(state.running_ids().is_empty());
}
