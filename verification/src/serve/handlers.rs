use crate::alan::front;
use crate::alan::hash::{fingerprint, hash_command};
use crate::alan::insights::{get_post_insights, post_insights};
use crate::circuit::Breaker;
use crate::clock::{fresh_id, now_micros};
use crate::config::timeout_for;
use crate::serve::{
    combine_insights, completed, copy_codes, event_texts, is_running, running_ids_of, tasks_wf, messages_of, polled, PollOutcome,
    registered, ServerState, slot_of, TaskInfo, TaskText, with_exit_codes, without_running,
};
use crate::serve::format::{
    format_task_output, frame_text, FrameText, TaskFrame, TaskStatus, truncate_output, truncated,
};
use crate::serve::notices::{without_task, Board, EventText, Op};
use crate::text::{
    byte_len, chars_of, decimal, extend_str, extend_unsigned, fitting_chars, fitting_prefix,
    lemma_texts_push, pair_texts, slice_chars, string_of, texts,
};
use vstd::prelude::*;

verus! {

/// What the executor wrote about a finished command, as far as it could be read.
pub struct MetaFile {
    pub pipestatus: Option<Vec<i32>>,
    pub timed_out: Option<bool>,
}

/// The exit codes taken from the executor's file: those it gives, or a
/// single 0 where it gives none.
pub open spec fn meta_pipestatus(meta: Option<MetaFile>) -> Seq<i32> {
    match meta {
        Some(m) => match m.pipestatus {
            Some(p) => p@,
            None => seq![0i32],
        },
        None => seq![0i32],
    }
}

/// Whether the executor's file says that the command was killed for
/// running too long.
pub open spec fn meta_timed_out(meta: Option<MetaFile>) -> bool {
    match meta {
        Some(m) => m.timed_out == Some(true),
        None => false,
    }
}

/// The exit code of the last segment, 0 where there is none.
pub open spec fn last_exit(pipestatus: Seq<i32>) -> i32 {
    if pipestatus.len() == 0 {
        0
    } else {
        pipestatus.last()
    }
}

/// The report of a finished command.
pub open spec fn completed_frame(
    task_id: Seq<char>,
    command: Seq<char>,
    output: Seq<char>,
    elapsed_tenths: u64,
    pre: Seq<(Seq<char>, Seq<char>)>,
    pipestatus: Seq<i32>,
    truncate_at: int,
) -> FrameText {
    let all = pre + post_insights(command, pipestatus, output);
    FrameText {
        status: TaskStatus::Completed,
        task_id,
        output: truncated(output, truncate_at),
        error: None,
        elapsed_tenths,
        has_stdin: false,
        new_bytes: 0,
        pipestatus,
        info: messages_of(all, false),
        warning: messages_of(all, true),
    }
}

/// The breaker after a command has finished: a timeout is put on
/// record, anything else counts as a success.
pub open spec fn breaker_after(b: Breaker, command: Seq<char>, timed_out: bool, now: u64) -> Breaker {
    if timed_out {
        b.after_timeout(fingerprint(command), now)
    } else {
        b.after_success()
    }
}

/// Whether `after` is what closing a finished task at `now` makes of
/// `before`: the breaker is told, the exit codes are put on record in
/// the task, and the end of the task is put in the queue unless the
/// caller is looking at it.
pub open spec fn finalized(
    before: ServerState,
    after: ServerState,
    task_id: Seq<char>,
    command: Seq<char>,
    elapsed_tenths: u64,
    meta: Option<MetaFile>,
    suppress_notification: bool,
    now: u64,
) -> bool {
    &&& before.settings_kept(after)
    &&& after.circuit_breaker@ == breaker_after(
        before.circuit_breaker@,
        command,
        meta_timed_out(meta),
        now,
    )
    &&& after.tasks@ == with_exit_codes(before.tasks@, task_id, meta_pipestatus(meta))
    &&& after.board().running == before.board().running
    &&& after.board().queue == if suppress_notification {
        before.board().queue
    } else {
        before.board().queue.push(
            EventText { task_id, exit_code: last_exit(meta_pipestatus(meta)), elapsed_tenths },
        )
    }
}

impl ServerState {
    /// Closes a finished task at `now`: reads the exit codes and puts
    /// them on record in the task, gathers the insights, tells the
    /// breaker, puts the end of the task in the queue unless the caller
    /// is looking at it, and writes the report.
    pub fn finalize_task(
        &mut self,
        task_id: &str,
        command: &str,
        output: &str,
        elapsed_tenths: u64,
        pre_insights: &Vec<(String, String)>,
        meta: Option<MetaFile>,
        suppress_notification: bool,
        now: u64,
    ) -> (r: String)
        ensures
            r@ == frame_text(
                completed_frame(
                    task_id@,
                    command@,
                    output@,
                    elapsed_tenths,
                    pair_texts(pre_insights@),
                    meta_pipestatus(meta),
                    old(self).config.truncate_output_at as int,
                ),
            ),
            finalized(
                *old(self),
                *final(self),
                task_id@,
                command@,
                elapsed_tenths,
                meta,
                suppress_notification,
                now,
            ),
            old(self).tasks.wf() ==> final(self).tasks.wf(),
    {
        let limit: usize = self.config.truncate_output_at;
        let mut timed_out = false;
        let mut pipestatus: Vec<i32> = Vec::new();
        let mut known = false;
        match &meta {
            Some(m) => {
                match &m.pipestatus {
                    Some(p) => {
                        pipestatus = copy_codes(p);
                        known = true;
                    },
                    None => {},
                }
                match m.timed_out {
                    Some(t) => {
                        timed_out = t;
                    },
                    None => {},
                }
            },
            None => {},
        }
        if !known {
            pipestatus.push(0);
            assert(pipestatus@ =~= seq![0i32]);
        }
        let overall: i32 = if pipestatus.len() == 0 {
            0
        } else {
            pipestatus[pipestatus.len() - 1]
        };
        let post = get_post_insights(command, pipestatus.as_slice(), output);
        let grouped = combine_insights(pre_insights, &post);
        if timed_out {
            let hash = hash_command(command);
            self.circuit_breaker.record_timeout_at(hash.as_str(), now);
        } else {
            self.circuit_breaker.record_success();
        }
        self.tasks.store_exit_codes(task_id, &pipestatus);
        if !suppress_notification {
            self.enqueue_event(task_id, overall, elapsed_tenths);
        }
        let frame = TaskFrame {
            status: TaskStatus::Completed,
            task_id: task_id.to_owned(),
            output: truncate_output(output, limit),
            error: None,
            elapsed_tenths,
            has_stdin: false,
            new_bytes: 0,
            pipestatus,
            info: grouped.0,
            warning: grouped.1,
        };
        assert(frame@ == completed_frame(
            task_id@,
            command@,
            output@,
            elapsed_tenths,
            pair_texts(pre_insights@),
            meta_pipestatus(meta),
            limit as int,
        ));
        format_task_output(&frame)
    }
}

/// What a tool call answers: a text, and whether it reports a misuse of the tool.
pub struct ToolReply {
    pub text: String,
    pub is_error: bool,
}

/// The arguments of the tool `zsh`, as far as they were given.
pub struct ZshCall {
    pub command: Option<String>,
    pub timeout: Option<u64>,
    /// The time after which a running command is left in the
    /// background, in milliseconds.
    pub yield_after_ms: Option<u64>,
    pub pty: Option<bool>,
}

/// How the executor is to be started for a command.
pub struct SpawnPlan {
    pub task_id: String,
    pub command: String,
    pub meta_path: String,
    /// The arguments of the executor.
    pub args: Vec<String>,
    /// Whether the executor gets a pipe as its input, to pass on keystrokes.
    pub pipe_stdin: bool,
    pub timeout: u64,
    pub yield_after_ms: u64,
}

/// What the server does with a call of `zsh`.
pub enum ZshStart {
    /// It answers at once.
    Reply(ToolReply),
    /// It starts the executor.
    Spawn(SpawnPlan),
}

/// A report of a failure, without output.
pub open spec fn error_frame(task_id: Seq<char>, error: Seq<char>) -> FrameText {
    FrameText {
        status: TaskStatus::Error,
        task_id,
        output: Seq::empty(),
        error: Some(error),
        elapsed_tenths: 0,
        has_stdin: false,
        new_bytes: 0,
        pipestatus: Seq::empty(),
        info: Seq::empty(),
        warning: Seq::empty(),
    }
}

/// The report of a failure.
pub fn error_text(task_id: &str, error: &str) -> (r: String)
    ensures
        r@ == frame_text(error_frame(task_id@, error@)),
{
    let frame = TaskFrame {
        status: TaskStatus::Error,
        task_id: task_id.to_owned(),
        output: String::new(),
        error: Some(error.to_owned()),
        elapsed_tenths: 0,
        has_stdin: false,
        new_bytes: 0,
        pipestatus: Vec::new(),
        info: Vec::new(),
        warning: Vec::new(),
    };
    assert(frame@.info =~= Seq::<Seq<char>>::empty());
    assert(frame@.warning =~= Seq::<Seq<char>>::empty());
    assert(frame@ == error_frame(task_id@, error@));
    format_task_output(&frame)
}

/// The report of an executor that could not be started.
pub fn spawn_failed_text(task_id: &str, reason: &str) -> (r: String)
    ensures
        r@ == frame_text(error_frame(task_id@, "Failed to spawn executor: "@ + reason@)),
{
    let mut message = chars_of("Failed to spawn executor: ");
    extend_str(&mut message, reason);
    error_text(task_id, string_of(&message).as_str())
}

/// The report of an executor that could not be waited for.
pub fn wait_failed_text(task_id: &str, reason: &str) -> (r: String)
    ensures
        r@ == frame_text(error_frame(task_id@, "Process wait error: "@ + reason@)),
{
    let mut message = chars_of("Process wait error: ");
    extend_str(&mut message, reason);
    error_text(task_id, string_of(&message).as_str())
}

/// Where the executor writes what it found.
pub open spec fn meta_path_of(task_id: Seq<char>) -> Seq<char> {
    "/tmp/zsh-tool-meta-"@ + task_id + ".json"@
}

/// The arguments with which the executor is started.
pub open spec fn executor_args(
    meta_path: Seq<char>,
    timeout: u64,
    db_path: Seq<char>,
    session_id: Seq<char>,
    use_pty: bool,
    command: Seq<char>,
) -> Seq<Seq<char>> {
    seq![
        "exec"@,
        "--meta"@,
        meta_path,
        "--timeout"@,
        decimal(timeout as int),
        "--db"@,
        db_path,
        "--session-id"@,
        session_id,
    ] + (if use_pty {
        seq!["--pty"@]
    } else {
        Seq::empty()
    }) + seq!["--"@, command]
}

/// What a refused call is told: what the breaker says.
pub open spec fn refusal(b: Breaker, now: u64) -> Seq<char> {
    match b.allow_message(now) {
        Some(message) => message,
        None => "NEVERHANG: Circuit OPEN"@,
    }
}

fn push_text(v: &mut Vec<String>, s: String)
    ensures
        texts(final(v)@) == texts(old(v)@).push(s@),
{
    proof {
        lemma_texts_push(v@, s);
    }
    v.push(s);
}

/// Whether `r` and `after` are what a call of `zsh` at `now` makes of the
/// server `before`, with `uuid` for the task id. A call without a
/// command is answered with an error, a call that the breaker refuses
/// with what the breaker says. Any other call starts the executor,
/// under a task id made of the first eight characters of `uuid`.
pub open spec fn zsh_begun(
    before: ServerState,
    after: ServerState,
    call: ZshCall,
    uuid: Seq<char>,
    now: u64,
    r: ZshStart,
) -> bool {
    &&& before.settings_kept(after)
    &&& after.tasks == before.tasks
    &&& after.event_queue == before.event_queue
    &&& match call.command {
        None => {
            &&& r matches ZshStart::Reply(reply)
            &&& reply.is_error
            &&& reply.text@ == "Missing required parameter: command"@
            &&& after.circuit_breaker == before.circuit_breaker
        },
        Some(command) => {
            &&& after.circuit_breaker@ == before.circuit_breaker@.after_allow(now)
            &&& if before.circuit_breaker@.allows(now) {
                &&& r matches ZshStart::Spawn(plan)
                &&& plan.task_id@ == front(uuid, 8)
                &&& plan.command@ == command@
                &&& plan.meta_path@ == meta_path_of(plan.task_id@)
                &&& plan.timeout == timeout_for(
                    call.timeout,
                    before.config.neverhang_timeout_default,
                    before.config.neverhang_timeout_max,
                )
                &&& plan.yield_after_ms == (match call.yield_after_ms {
                    Some(ms) => ms,
                    None => before.config.yield_after_default_ms,
                })
                &&& plan.pipe_stdin == (call.pty == Some(true))
                &&& texts(plan.args@) == executor_args(
                    plan.meta_path@,
                    plan.timeout,
                    before.db_path@,
                    before.session_id@,
                    plan.pipe_stdin,
                    command@,
                )
            } else {
                &&& r matches ZshStart::Reply(reply)
                &&& !reply.is_error
                &&& reply.text@ == frame_text(
                    error_frame(""@, refusal(before.circuit_breaker@, now)),
                )
            }
        },
    }
}

impl ServerState {
    /// Decides what to do with a call of `zsh` at `now`, with `uuid` for
    /// the task id.
    pub fn begin_zsh_at(&mut self, call: &ZshCall, uuid: &str, now: u64) -> (r: ZshStart)
        ensures
            zsh_begun(*old(self), *final(self), *call, uuid@, now, r),
    {
        let command = match &call.command {
            Some(c) => c,
            None => {
                return ZshStart::Reply(
                    ToolReply {
                        text: "Missing required parameter: command".to_owned(),
                        is_error: true,
                    },
                );
            },
        };
        let use_pty = match call.pty {
            Some(p) => p,
            None => false,
        };
        let timeout = self.config.effective_timeout(call.timeout);
        let yield_after_ms = match call.yield_after_ms {
            Some(ms) => ms,
            None => self.config.yield_after_default_ms,
        };
        let db_path = self.db_path.clone();
        let session_id = self.session_id.clone();
        let verdict = self.circuit_breaker.should_allow_at(now);
        if !verdict.0 {
            let message = match verdict.1 {
                Some(m) => m,
                None => "NEVERHANG: Circuit OPEN".to_owned(),
            };
            return ZshStart::Reply(
                ToolReply { text: error_text("", message.as_str()), is_error: false },
            );
        }
        let id_chars = chars_of(uuid);
        let task_id = if id_chars.len() <= 8 {
            string_of(&id_chars)
        } else {
            let short = slice_chars(&id_chars, 0, 8);
            assert(id_chars@.subrange(0, 8) =~= uuid@.take(8));
            string_of(&short)
        };
        let mut path = chars_of("/tmp/zsh-tool-meta-");
        extend_str(&mut path, task_id.as_str());
        extend_str(&mut path, ".json");
        let meta_path = string_of(&path);
        let mut args: Vec<String> = Vec::new();
        assert(texts(args@) =~= Seq::<Seq<char>>::empty());
        push_text(&mut args, "exec".to_owned());
        push_text(&mut args, "--meta".to_owned());
        push_text(&mut args, meta_path.clone());
        push_text(&mut args, "--timeout".to_owned());
        let mut seconds: Vec<char> = Vec::new();
        extend_unsigned(&mut seconds, timeout);
        assert(seconds@ =~= decimal(timeout as int));
        push_text(&mut args, string_of(&seconds));
        push_text(&mut args, "--db".to_owned());
        push_text(&mut args, db_path);
        push_text(&mut args, "--session-id".to_owned());
        push_text(&mut args, session_id);
        if use_pty {
            push_text(&mut args, "--pty".to_owned());
        }
        push_text(&mut args, "--".to_owned());
        push_text(&mut args, command.clone());
        assert(texts(args@) =~= executor_args(
            meta_path@,
            timeout,
            old(self).db_path@,
            old(self).session_id@,
            use_pty,
            command@,
        ));
        ZshStart::Spawn(
            SpawnPlan {
                task_id,
                command: command.clone(),
                meta_path,
                args,
                pipe_stdin: use_pty,
                timeout,
                yield_after_ms,
            },
        )
    }

    /// Decides what to do with a call of `zsh` now, under a task id drawn at random.
    pub fn begin_zsh(&mut self, call: &ZshCall) -> (r: ZshStart)
        ensures
            exists|uuid: Seq<char>, now: u64| #[trigger]
                zsh_begun(*old(self), *final(self), *call, uuid, now, r),
    {
        let uuid = fresh_id();
        let now = now_micros();
        let r = self.begin_zsh_at(call, uuid.as_str(), now);
        assert(zsh_begun(*old(self), *self, *call, uuid@, now, r));
        r
    }
}

/// The report of a task that is still running.
pub open spec fn running_frame(
    task_id: Seq<char>,
    output: Seq<char>,
    elapsed_tenths: u64,
    has_stdin: bool,
    new_bytes: u64,
    pre: Seq<(Seq<char>, Seq<char>)>,
    truncate_at: int,
) -> FrameText {
    FrameText {
        status: TaskStatus::Running,
        task_id,
        output: truncated(output, truncate_at),
        error: None,
        elapsed_tenths,
        has_stdin,
        new_bytes,
        pipestatus: Seq::empty(),
        info: messages_of(pre, false),
        warning: messages_of(pre, true),
    }
}

/// The report of a task that is still running.
pub fn running_text(
    task_id: &str,
    output: &str,
    elapsed_tenths: u64,
    has_stdin: bool,
    new_bytes: u64,
    pre_insights: &Vec<(String, String)>,
    truncate_at: usize,
) -> (r: String)
    ensures
        r@ == frame_text(
            running_frame(
                task_id@,
                output@,
                elapsed_tenths,
                has_stdin,
                new_bytes,
                pair_texts(pre_insights@),
                truncate_at as int,
            ),
        ),
{
    let none: Vec<(String, String)> = Vec::new();
    assert(pair_texts(pre_insights@) + pair_texts(none@) =~= pair_texts(pre_insights@));
    let grouped = combine_insights(pre_insights, &none);
    let frame = TaskFrame {
        status: TaskStatus::Running,
        task_id: task_id.to_owned(),
        output: truncate_output(output, truncate_at),
        error: None,
        elapsed_tenths,
        has_stdin,
        new_bytes,
        pipestatus: Vec::new(),
        info: grouped.0,
        warning: grouped.1,
    };
    assert(frame@ == running_frame(
        task_id@,
        output@,
        elapsed_tenths,
        has_stdin,
        new_bytes,
        pair_texts(pre_insights@),
        truncate_at as int,
    ));
    format_task_output(&frame)
}

/// The report of a task that has ended before, or was killed.
pub open spec fn plain_frame(
    status: TaskStatus,
    task_id: Seq<char>,
    output: Seq<char>,
    elapsed_tenths: u64,
    pipestatus: Seq<i32>,
    truncate_at: int,
) -> FrameText {
    FrameText {
        status,
        task_id,
        output: truncated(output, truncate_at),
        error: None,
        elapsed_tenths,
        has_stdin: false,
        new_bytes: 0,
        pipestatus,
        info: Seq::empty(),
        warning: Seq::empty(),
    }
}

/// The report of a task that has ended before, or was killed.
pub fn plain_text(
    status: TaskStatus,
    task_id: &str,
    output: &str,
    elapsed_tenths: u64,
    pipestatus: &Vec<i32>,
    truncate_at: usize,
) -> (r: String)
    ensures
        r@ == frame_text(
            plain_frame(
                status,
                task_id@,
                output@,
                elapsed_tenths,
                pipestatus@,
                truncate_at as int,
            ),
        ),
{
    let frame = TaskFrame {
        status,
        task_id: task_id.to_owned(),
        output: truncate_output(output, truncate_at),
        error: None,
        elapsed_tenths,
        has_stdin: false,
        new_bytes: 0,
        pipestatus: copy_codes(pipestatus),
        info: Vec::new(),
        warning: Vec::new(),
    };
    assert(frame@.info =~= Seq::<Seq<char>>::empty());
    assert(frame@.warning =~= Seq::<Seq<char>>::empty());
    assert(frame@ == plain_frame(
        status,
        task_id@,
        output@,
        elapsed_tenths,
        pipestatus@,
        truncate_at as int,
    ));
    format_task_output(&frame)
}

/// What a call that names a task is told when the task cannot take it.
pub open spec fn task_complaint(known: bool, task_id: Seq<char>) -> Seq<char> {
    if known {
        "Task "@ + task_id + " is not running"@
    } else {
        "Unknown task: "@ + task_id
    }
}

fn complain(known: bool, task_id: &str) -> (r: String)
    ensures
        r@ == task_complaint(known, task_id@),
{
    if known {
        let mut message = chars_of("Task ");
        extend_str(&mut message, task_id);
        extend_str(&mut message, " is not running");
        string_of(&message)
    } else {
        let mut message = chars_of("Unknown task: ");
        extend_str(&mut message, task_id);
        string_of(&message)
    }
}

/// What a call of `zsh_send` is answered for a task that cannot take it,
/// and `None` where the running task takes input.
pub open spec fn send_complaint(tasks: Seq<TaskText>, task_id: Seq<char>) -> Option<Seq<char>> {
    if is_running(tasks, task_id) {
        if tasks[slot_of(tasks, task_id)].has_stdin {
            None
        } else {
            Some("Task "@ + task_id + " has no stdin (not a PTY task)"@)
        }
    } else {
        Some(task_complaint(slot_of(tasks, task_id) >= 0, task_id))
    }
}

impl ServerState {
    /// Decides what is written to a task for a call of `zsh_send`: the
    /// input and a line feed, where the task is running and takes input;
    /// otherwise the complaint that is sent back.
    pub fn handle_send(&self, task_id: &str, input: &str) -> (r: Result<String, String>)
        ensures
            match r {
                Ok(data) => send_complaint(self.tasks@, task_id@) is None && data@ == input@
                    + "\n"@,
                Err(message) => send_complaint(self.tasks@, task_id@) == Some(message@),
            },
    {
        match self.tasks.find(task_id) {
            Some(i) => {
                assert(self.tasks@[i as int] == self.tasks.tasks@[i as int]@);
                if self.tasks.tasks[i].status == TaskStatus::Running {
                    if self.tasks.tasks[i].has_stdin {
                        let mut data = chars_of(input);
                        extend_str(&mut data, "\n");
                        Ok(string_of(&data))
                    } else {
                        let mut message = chars_of("Task ");
                        extend_str(&mut message, task_id);
                        extend_str(&mut message, " has no stdin (not a PTY task)");
                        Err(string_of(&message))
                    }
                } else {
                    Err(complain(true, task_id))
                }
            },
            None => Err(complain(false, task_id)),
        }
    }

    /// Removes a running task that was killed and writes the report:
    /// `remaining` is what the task still printed, `elapsed_tenths` the
    /// time it ran. A task that is not running stays, and the answer is
    /// a complaint.
    pub fn handle_kill(&mut self, task_id: &str, remaining: &str, elapsed_tenths: u64) -> (r: Result<
        String,
        String,
    >)
        requires
            old(self).tasks.wf(),
        ensures
            final(self).tasks@ == without_running(old(self).tasks@, task_id@),
            final(self).tasks.wf(),
            final(self).board() == old(self).board().step(
                Op::Kill { id: task_id@ },
            ),
            old(self).kept_but_tasks(*final(self)),
            match r {
                Ok(text) => {
                    &&& is_running(old(self).tasks@, task_id@)
                    &&& !final(self).tasks.knows(task_id@)
                    &&& text@ == frame_text(
                        plain_frame(
                            TaskStatus::Killed,
                            task_id@,
                            old(self).tasks@[slot_of(old(self).tasks@, task_id@)].output_buffer
                                + remaining@,
                            elapsed_tenths,
                            Seq::empty(),
                            old(self).config.truncate_output_at as int,
                        ),
                    )
                },
                Err(message) => !is_running(old(self).tasks@, task_id@) && message@
                    == task_complaint(old(self).tasks.knows(task_id@), task_id@),
            },
    {
        let limit: usize = self.config.truncate_output_at;
        let known = self.tasks.find(task_id).is_some();
        match self.kill(task_id) {
            Some(task) => {
                let mut output = chars_of(task.output_buffer.as_str());
                extend_str(&mut output, remaining);
                let none: Vec<i32> = Vec::new();
                Ok(
                    plain_text(
                        TaskStatus::Killed,
                        task_id,
                        string_of(&output).as_str(),
                        elapsed_tenths,
                        &none,
                        limit,
                    ),
                )
            },
            None => Err(complain(known, task_id)),
        }
    }
}

/// What the server does with a call of `zsh_poll`.
pub enum PollReply {
    /// It answers at once.
    Reply(ToolReply),
    /// The task has ended: it reads the executor's file and closes the
    /// task with `finalize_task`, without a notification.
    Finalize { command: String, output: String, pre_insights: Vec<(String, String)>, meta_path: String },
}

/// The tasks after a poll of the task `id`. `fresh` is what the task has
/// printed since the last look, `exited` whether it has ended. A running
/// task that has ended is marked as completed, one that has not gets its
/// output and its mark of what was seen brought up to date; any other
/// task stays as it is.
pub open spec fn tasks_after_poll(
    tasks: Seq<TaskText>,
    id: Seq<char>,
    fresh: Seq<char>,
    exited: bool,
) -> Seq<TaskText> {
    if !is_running(tasks, id) {
        tasks
    } else if exited {
        completed(tasks, id, fresh)
    } else {
        polled(tasks, id, fresh)
    }
}

/// Whether `r` is the answer to a poll of the task `id`: a complaint for
/// an unknown id; for a task that has just ended, what is needed to close
/// it; for a running task, the report with what is new; for a task that
/// ended before, the report kept of it, with its exit codes.
pub open spec fn answers_poll(
    r: PollReply,
    tasks: Seq<TaskText>,
    id: Seq<char>,
    fresh: Seq<char>,
    exited: bool,
    elapsed_tenths: u64,
    truncate_at: int,
) -> bool {
    let task = tasks[slot_of(tasks, id)];
    if slot_of(tasks, id) < 0 {
        &&& r matches PollReply::Reply(reply)
        &&& reply.is_error
        &&& reply.text@ == task_complaint(false, id)
    } else if task.status == TaskStatus::Running && exited {
        &&& r matches PollReply::Finalize { command, output, pre_insights, meta_path }
        &&& command@ == task.command
        &&& output@ == task.output_buffer + fresh
        &&& pair_texts(pre_insights@) == task.pre_insights
        &&& meta_path@ == task.meta_path
    } else if task.status == TaskStatus::Running {
        &&& r matches PollReply::Reply(reply)
        &&& !reply.is_error
        &&& reply.text@ == frame_text(
            running_frame(
                id,
                task.output_buffer + fresh,
                elapsed_tenths,
                task.has_stdin,
                (byte_len(task.output_buffer + fresh) - task.last_poll_offset) as u64,
                task.pre_insights,
                truncate_at,
            ),
        )
    } else {
        &&& r matches PollReply::Reply(reply)
        &&& !reply.is_error
        &&& reply.text@ == frame_text(
            plain_frame(
                task.status,
                id,
                task.output_buffer,
                elapsed_tenths,
                task.pipestatus,
                truncate_at,
            ),
        )
    }
}

impl ServerState {
    /// Decides what to do with a call of `zsh_poll`. `fresh` is the
    /// output read since the last look, to its end where the task has
    /// `exited`; `elapsed_tenths` is the time since the task was started.
    /// A task that has ended, now or before, loses its waiting events.
    pub fn handle_poll(&mut self, task_id: &str, fresh: &str, exited: bool, elapsed_tenths: u64) -> (r:
        PollReply)
        requires
            old(self).tasks.wf(),
        ensures
            final(self).tasks.wf(),
            old(self).settings_kept(*final(self)),
            final(self).circuit_breaker == old(self).circuit_breaker,
            final(self).tasks@ == tasks_after_poll(old(self).tasks@, task_id@, fresh@, exited),
            final(self).board() == if old(self).tasks.knows(task_id@) {
                old(self).board().step(Op::Poll { id: task_id@, exited })
            } else {
                old(self).board()
            },
            answers_poll(
                r,
                old(self).tasks@,
                task_id@,
                fresh@,
                exited,
                elapsed_tenths,
                old(self).config.truncate_output_at as int,
            ),
    {
        let limit: usize = self.config.truncate_output_at;
        let found = self.tasks.find(task_id);
        let slot: usize = match found {
            Some(i) => i,
            None => {
                return PollReply::Reply(ToolReply { text: complain(false, task_id), is_error: true });
            },
        };
        assert(self.tasks@[slot as int] == self.tasks.tasks@[slot as int]@);
        if self.tasks.tasks[slot].status == TaskStatus::Running {
            if exited {
                let ended = self.tasks.complete_task(task_id, fresh);
                self.suppress_event_for_task(task_id);
                match ended {
                    Some(PollOutcome::Ended { command, output, pre_insights, meta_path, .. }) => {
                        PollReply::Finalize { command, output, pre_insights, meta_path }
                    },
                    _ => PollReply::Reply(
                        ToolReply { text: complain(false, task_id), is_error: true },
                    ),
                }
            } else {
                match self.tasks.poll_running(task_id, fresh) {
                    Some(
                        PollOutcome::StillRunning { output, has_stdin, new_bytes, pre_insights, .. },
                    ) => {
                        PollReply::Reply(
                            ToolReply {
                                text: running_text(
                                    task_id,
                                    output.as_str(),
                                    elapsed_tenths,
                                    has_stdin,
                                    new_bytes as u64,
                                    &pre_insights,
                                    limit,
                                ),
                                is_error: false,
                            },
                        )
                    },
                    _ => PollReply::Reply(
                        ToolReply { text: complain(false, task_id), is_error: true },
                    ),
                }
            }
        } else {
            let kept = self.tasks.cached(task_id);
            self.suppress_event_for_task(task_id);
            match kept {
                Some(PollOutcome::Cached { status, output, pipestatus, .. }) => {
                    PollReply::Reply(
                        ToolReply {
                            text: plain_text(
                                status,
                                task_id,
                                output.as_str(),
                                elapsed_tenths,
                                &pipestatus,
                                limit,
                            ),
                            is_error: false,
                        },
                    )
                },
                _ => PollReply::Reply(ToolReply { text: complain(false, task_id), is_error: true }),
            }
        }
    }
}

/// The task that is registered for a command that is still running
/// after the yield.
pub open spec fn started_task(
    plan: SpawnPlan,
    output_so_far: Seq<char>,
    pid: u32,
    started_at_epoch: u64,
    pre: Seq<(Seq<char>, Seq<char>)>,
) -> TaskText {
    TaskText {
        task_id: plan.task_id@,
        command: plan.command@,
        started_at_epoch,
        status: TaskStatus::Running,
        output_buffer: output_so_far,
        last_poll_offset: 0,
        has_stdin: plan.pipe_stdin,
        pipestatus: Seq::empty(),
        pid: Some(pid),
        is_pty: plan.pipe_stdin,
        meta_path: plan.meta_path@,
        pre_insights: pre,
    }
}

impl ServerState {
    /// Registers a command that is still running after the yield, and
    /// writes the report. `None`, and nothing registered, where the task
    /// id is taken.
    pub fn start_running(
        &mut self,
        plan: &SpawnPlan,
        output_so_far: &str,
        pid: u32,
        started_at_epoch: u64,
        pre_insights: &Vec<(String, String)>,
        elapsed_tenths: u64,
    ) -> (r: Option<String>)
        requires
            old(self).tasks.wf(),
        ensures
            final(self).tasks.wf(),
            old(self).kept_but_tasks(*final(self)),
            final(self).tasks@ == registered(
                old(self).tasks@,
                started_task(
                    *plan,
                    output_so_far@,
                    pid,
                    started_at_epoch,
                    pair_texts(pre_insights@),
                ),
            ),
            match r {
                Some(text) => {
                    &&& !old(self).tasks.knows(plan.task_id@)
                    &&& final(self).board().running == old(self).board().running.insert(
                        plan.task_id@,
                    )
                    &&& text@ == frame_text(
                        running_frame(
                            plan.task_id@,
                            output_so_far@,
                            elapsed_tenths,
                            plan.pipe_stdin,
                            0,
                            pair_texts(pre_insights@),
                            old(self).config.truncate_output_at as int,
                        ),
                    )
                },
                None => old(self).tasks.knows(plan.task_id@) && final(self).tasks@ == old(
                    self,
                ).tasks@,
            },
    {
        let limit: usize = self.config.truncate_output_at;
        let mut copy: Vec<(String, String)> = Vec::new();
        let mut i: usize = 0;
        while i < pre_insights.len()
            invariant
                i <= pre_insights.len(),
                copy@ == pre_insights@.take(i as int),
            decreases pre_insights.len() - i,
        {
            copy.push((pre_insights[i].0.clone(), pre_insights[i].1.clone()));
            assert(copy@ =~= pre_insights@.take(i + 1));
            i += 1;
        }
        assert(pre_insights@.take(pre_insights.len() as int) =~= pre_insights@);
        let task = TaskInfo {
            task_id: plan.task_id.clone(),
            command: plan.command.clone(),
            started_at_epoch,
            status: TaskStatus::Running,
            output_buffer: output_so_far.to_owned(),
            last_poll_offset: 0,
            has_stdin: plan.pipe_stdin,
            pipestatus: Vec::new(),
            pid: Some(pid),
            is_pty: plan.pipe_stdin,
            meta_path: plan.meta_path.clone(),
            pre_insights: copy,
        };
        assert(task@ == started_task(
            *plan,
            output_so_far@,
            pid,
            started_at_epoch,
            pair_texts(pre_insights@),
        ));
        proof {
            crate::serve::lemma_registered(self.tasks@, task@);
        }
        if self.tasks.register(task) {
            Some(
                running_text(
                    plan.task_id.as_str(),
                    output_so_far,
                    elapsed_tenths,
                    plan.pipe_stdin,
                    0,
                    pre_insights,
                    limit,
                ),
            )
        } else {
            None
        }
    }

    /// Closes the breaker and clears its record.
    pub fn handle_neverhang_reset(&mut self)
        ensures
            final(self).circuit_breaker@ == old(self).circuit_breaker@.after_reset(),
            old(self).settings_kept(*final(self)),
            final(self).tasks == old(self).tasks,
            final(self).event_queue == old(self).event_queue,
    {
        self.circuit_breaker.reset();
    }

    /// How many tasks the registry holds.
    pub fn active_tasks(&self) -> (r: usize)
        ensures
            r == self.tasks@.len(),
    {
        self.tasks.tasks.len()
    }
}

/// A task in the list of tasks.
pub struct TaskRow {
    pub task_id: String,
    /// The command, cut where it is long.
    pub command: String,
    pub status: TaskStatus,
}

/// A command as it is listed: all of it up to 50 bytes, else the
/// characters that fit in 47 bytes and three dots.
pub open spec fn listed_command(command: Seq<char>) -> Seq<char> {
    if byte_len(command) > 50 {
        command.take(fitting_chars(command, 47) as int) + "..."@
    } else {
        command
    }
}

fn shorten(command: &str) -> (r: String)
    ensures
        r@ == listed_command(command@),
{
    if command.as_bytes().len() > 50 {
        let mut short = fitting_prefix(&chars_of(command), 47);
        extend_str(&mut short, "...");
        string_of(&short)
    } else {
        command.to_owned()
    }
}

/// The ids of the running tasks among the first `n`, in their order.
pub open spec fn running_list(tasks: Seq<TaskText>, n: int) -> Seq<Seq<char>>
    decreases n,
{
    if n <= 0 {
        Seq::empty()
    } else if tasks[n - 1].status == TaskStatus::Running {
        running_list(tasks, n - 1).push(tasks[n - 1].task_id)
    } else {
        running_list(tasks, n - 1)
    }
}

impl ServerState {
    /// The tasks of the registry, in the order in which they were started.
    pub fn handle_list_tasks(&self) -> (r: Vec<TaskRow>)
        ensures
            r@.len() == self.tasks@.len(),
            forall|i: int|
                0 <= i < r@.len() ==> {
                    &&& (#[trigger] r@[i]).task_id@ == self.tasks@[i].task_id
                    &&& r@[i].command@ == listed_command(self.tasks@[i].command)
                    &&& r@[i].status == self.tasks@[i].status
                },
    {
        let ghost all = self.tasks@;
        let mut rows: Vec<TaskRow> = Vec::new();
        let mut i: usize = 0;
        while i < self.tasks.tasks.len()
            invariant
                i <= self.tasks.tasks.len(),
                all == self.tasks@,
                rows@.len() == i,
                forall|k: int|
                    0 <= k < i ==> {
                        &&& (#[trigger] rows@[k]).task_id@ == all[k].task_id
                        &&& rows@[k].command@ == listed_command(all[k].command)
                        &&& rows@[k].status == all[k].status
                    },
            decreases self.tasks.tasks.len() - i,
        {
            let task = &self.tasks.tasks[i];
            assert(all[i as int] == task@);
            rows.push(
                TaskRow {
                    task_id: task.task_id.clone(),
                    command: shorten(task.command.as_str()),
                    status: task.status,
                },
            );
            i += 1;
        }
        rows
    }

    /// The ids of the running tasks, in the order of the registry, for
    /// the sweep that looks which of them have ended.
    pub fn running_ids(&self) -> (r: Vec<String>)
        ensures
            texts(r@) == running_list(self.tasks@, self.tasks@.len() as int),
    {
        let ghost all = self.tasks@;
        let mut ids: Vec<String> = Vec::new();
        let mut i: usize = 0;
        assert(texts(ids@) =~= running_list(all, 0));
        while i < self.tasks.tasks.len()
            invariant
                i <= self.tasks.tasks.len(),
                all == self.tasks@,
                texts(ids@) == running_list(all, i as int),
            decreases self.tasks.tasks.len() - i,
        {
            assert(all[i as int] == self.tasks.tasks@[i as int]@);
            if self.tasks.tasks[i].status == TaskStatus::Running {
                let id = self.tasks.tasks[i].task_id.clone();
                proof {
                    lemma_texts_push(ids@, id);
                }
                ids.push(id);
            }
            i += 1;
        }
        ids
    }
}

/// A running task that the sweep found ended: what it still printed,
/// what the executor wrote about it, and how long it ran.
pub struct EndedTask {
    pub task_id: String,
    pub remaining: String,
    pub meta: Option<MetaFile>,
    pub elapsed_tenths: u64,
}

/// What a sweep changes: the tasks, the breaker and the queue of events.
pub struct Core {
    pub tasks: Seq<TaskText>,
    pub breaker: Breaker,
    pub queue: Seq<EventText>,
}

/// The event that tells of the end of a task.
pub open spec fn event_of(e: EndedTask) -> EventText {
    EventText {
        task_id: e.task_id@,
        exit_code: last_exit(meta_pipestatus(e.meta)),
        elapsed_tenths: e.elapsed_tenths,
    }
}

/// What the sweep makes of one ended task at `now`: the task is marked
/// as completed with all of its output and its exit codes, the breaker
/// is told, and the end of the task is put in the queue. Nothing changes
/// where no running task has the id.
pub open spec fn swept_one(c: Core, e: EndedTask, now: u64) -> Core {
    if is_running(c.tasks, e.task_id@) {
        Core {
            tasks: with_exit_codes(
                completed(c.tasks, e.task_id@, e.remaining@),
                e.task_id@,
                meta_pipestatus(e.meta),
            ),
            breaker: breaker_after(
                c.breaker,
                c.tasks[slot_of(c.tasks, e.task_id@)].command,
                meta_timed_out(e.meta),
                now,
            ),
            queue: c.queue.push(event_of(e)),
        }
    } else {
        c
    }
}

/// What the sweep makes of the first `n` ended tasks.
pub open spec fn swept(c: Core, ended: Seq<EndedTask>, n: int, now: u64) -> Core
    decreases n,
{
    if n <= 0 {
        c
    } else {
        swept_one(swept(c, ended, n - 1, now), ended[n - 1], now)
    }
}

/// The steps that the sweep of the first `n` ended tasks takes on the board.
pub open spec fn sweep_ops(ended: Seq<EndedTask>, n: int) -> Seq<Op>
    decreases n,
{
    if n <= 0 {
        Seq::empty()
    } else {
        sweep_ops(ended, n - 1).push(Op::Finish(event_of(ended[n - 1])))
    }
}

/// The steps of one tool call on the board: the sweep of the tasks that
/// have ended, then the step of the tool itself if it has one, then the
/// answer with the waiting notices.
pub open spec fn tool_call_ops(ended: Seq<EndedTask>, tool: Option<Op>) -> Seq<Op> {
    sweep_ops(ended, ended.len() as int) + (match tool {
        Some(op) => seq![op],
        None => Seq::empty(),
    }) + seq![Op::Respond]
}

/// The board of the tasks and the queue.
pub open spec fn board_of(c: Core) -> Board {
    Board { running: running_ids_of(c.tasks), queue: c.queue }
}

/// The sweep of one ended task is the step `Finish` on the board, and
/// keeps the registry well formed.
pub proof fn lemma_swept_one(c: Core, e: EndedTask, now: u64)
    ensures
        board_of(swept_one(c, e, now)) == board_of(c).step(Op::Finish(event_of(e))),
        tasks_wf(c.tasks) ==> tasks_wf(swept_one(c, e, now).tasks),
{
    let id = e.task_id@;
    crate::serve::lemma_completed(c.tasks, id, e.remaining@);
    crate::serve::lemma_with_exit_codes(
        completed(c.tasks, id, e.remaining@),
        id,
        meta_pipestatus(e.meta),
    );
}

/// The sweep takes the steps `sweep_ops` on the board.
pub proof fn lemma_swept(c: Core, ended: Seq<EndedTask>, n: int, now: u64)
    ensures
        board_of(swept(c, ended, n, now)) == board_of(c).run(sweep_ops(ended, n)),
        tasks_wf(c.tasks) ==> tasks_wf(swept(c, ended, n, now).tasks),
    decreases n,
{
    if n > 0 {
        lemma_swept(c, ended, n - 1, now);
        lemma_swept_one(swept(c, ended, n - 1, now), ended[n - 1], now);
        crate::serve::notices::lemma_run_push(
            board_of(c),
            sweep_ops(ended, n - 1),
            Op::Finish(event_of(ended[n - 1])),
        );
    }
}

/// A task that ended unseen and is polled in the next tool call is not
/// told of: the sweep puts its end in the queue, the poll takes it out
/// again, and neither the answer of that call nor any later one carries it.
pub proof fn lemma_poll_call_after_unseen_end(b: Board, e: EndedTask, exited: bool, later: Seq<Op>)
    requires
        b.wf(),
        b.running.contains(e.task_id@),
    ensures
        b.told_during(
            tool_call_ops(seq![e], Some(Op::Poll { id: e.task_id@, exited })) + later,
            e.task_id@,
        ) == 0,
{
    let poll = Op::Poll { id: e.task_id@, exited };
    assert(sweep_ops(seq![e], 0) =~= Seq::<Op>::empty());
    assert(sweep_ops(seq![e], 1) =~= seq![Op::Finish(event_of(e))]);
    assert(tool_call_ops(seq![e], Some(poll)) + later =~= seq![
        Op::Finish(event_of(e)),
        poll,
        Op::Respond,
    ] + later);
    crate::serve::notices::lemma_poll_after_unseen_end(b, event_of(e), exited, later);
}

/// A task that ended unseen is told of once, in the answer of the next
/// tool call that does not poll it, and in no answer after that.
pub proof fn lemma_next_call_tells_once(b: Board, e: EndedTask, later: Seq<Op>)
    requires
        b.wf(),
        b.running.contains(e.task_id@),
    ensures
        b.told_during(tool_call_ops(seq![e], None), e.task_id@) == 1,
        b.run(tool_call_ops(seq![e], None)).told_during(later, e.task_id@) == 0,
{
    let id = e.task_id@;
    let finish = Op::Finish(event_of(e));
    let ops = tool_call_ops(seq![e], None);
    assert(sweep_ops(seq![e], 0) =~= Seq::<Op>::empty());
    assert(sweep_ops(seq![e], 1) =~= seq![finish]);
    assert(ops =~= seq![finish, Op::Respond]);
    let b1 = b.step(finish);
    let rest = ops.drop_first();
    assert(rest =~= seq![Op::Respond]);
    assert(rest.drop_first() =~= Seq::<Op>::empty());
    crate::serve::notices::lemma_step_keeps_wf(b, finish);
    crate::serve::notices::lemma_count_push(b.queue, event_of(e), id);
    assert(crate::serve::notices::count_for(b.queue, id) == 0);
    assert(b.told_during(ops, id) == b.told(ops[0], id) + b1.told_during(rest, id));
    assert(b1.told_during(rest, id) == b1.told(rest[0], id) + b1.step(rest[0]).told_during(
        rest.drop_first(),
        id,
    ));
    assert(b.run(ops) == b1.run(rest));
    assert(b1.run(rest) == b1.step(Op::Respond).run(rest.drop_first()));
    crate::serve::notices::lemma_second_answer_is_silent(b1, id, later);
}

fn copy_meta(meta: &Option<MetaFile>) -> (r: Option<MetaFile>)
    ensures
        meta_pipestatus(r) == meta_pipestatus(*meta),
        meta_timed_out(r) == meta_timed_out(*meta),
{
    match meta {
        Some(m) => Some(
            MetaFile {
                pipestatus: match &m.pipestatus {
                    Some(p) => Some(copy_codes(p)),
                    None => None,
                },
                timed_out: m.timed_out,
            },
        ),
        None => None,
    }
}

impl ServerState {
    /// The tasks, the breaker and the queue of events.
    pub open spec fn swept_part(self) -> Core {
        Core {
            tasks: self.tasks@,
            breaker: self.circuit_breaker@,
            queue: event_texts(self.event_queue@),
        }
    }

    /// Closes, at `now`, the running tasks that were found ended while
    /// nobody was asking for them, in the order given, and puts the end
    /// of each in the queue. Every tool call begins with this sweep.
    pub fn check_and_finalize_background_tasks(&mut self, ended: &Vec<EndedTask>, now: u64)
        requires
            old(self).tasks.wf(),
        ensures
            final(self).tasks.wf(),
            old(self).settings_kept(*final(self)),
            final(self).swept_part() == swept(old(self).swept_part(), ended@, ended@.len() as int, now),
            final(self).board() == old(self).board().run(sweep_ops(ended@, ended@.len() as int)),
    {
        let ghost start = self.swept_part();
        let mut i: usize = 0;
        while i < ended.len()
            invariant
                i <= ended.len(),
                self.tasks.wf(),
                old(self).settings_kept(*self),
                self.swept_part() == swept(start, ended@, i as int, now),
            decreases ended.len() - i,
        {
            let e = &ended[i];
            let ghost before = self.swept_part();
            match self.collect_if_done(e.task_id.as_str(), e.remaining.as_str()) {
                Some(PollOutcome::Ended { command, output, pre_insights, .. }) => {
                    let _ = self.finalize_task(
                        e.task_id.as_str(),
                        command.as_str(),
                        output.as_str(),
                        e.elapsed_tenths,
                        &pre_insights,
                        copy_meta(&e.meta),
                        false,
                        now,
                    );
                    assert(self.swept_part() == swept_one(before, *e, now));
                },
                _ => {
                    assert(self.swept_part() == swept_one(before, *e, now));
                },
            }
            i += 1;
        }
        proof {
            lemma_swept(start, ended@, ended@.len() as int, now);
            assert(board_of(start) == old(self).board());
            assert(board_of(self.swept_part()) == self.board());
        }
    }

    /// Answers a tool call: the waiting notices are put before the
    /// tool's answer, and the queue is empty afterwards. Every tool call
    /// ends with this.
    pub fn answer_tool_call(&mut self, reply: ToolReply) -> (r: ToolReply)
        ensures
            r.text@ == crate::serve::notices::with_notices(old(self).board().queue, reply.text@),
            r.is_error == reply.is_error,
            final(self).board() == old(self).board().step(Op::Respond),
            old(self).kept_but_queue(*final(self)),
    {
        let text = self.prepend_events(reply.text.as_str());
        ToolReply { text, is_error: reply.is_error }
    }
}

/// What a poll makes of the tasks, the breaker and the queue, at `now`:
/// the tasks change as `tasks_after_poll` says; a task that has just
/// ended is closed, with its exit codes put on record and the breaker
/// told; and the waiting events of a task that has ended, now or before,
/// are dropped.
pub open spec fn polled_part(
    c: Core,
    id: Seq<char>,
    fresh: Seq<char>,
    exited: bool,
    meta: Option<MetaFile>,
    now: u64,
) -> Core {
    let task = c.tasks[slot_of(c.tasks, id)];
    if slot_of(c.tasks, id) < 0 {
        c
    } else if task.status == TaskStatus::Running && exited {
        Core {
            tasks: with_exit_codes(completed(c.tasks, id, fresh), id, meta_pipestatus(meta)),
            breaker: breaker_after(c.breaker, task.command, meta_timed_out(meta), now),
            queue: without_task(c.queue, id),
        }
    } else if task.status == TaskStatus::Running {
        Core { tasks: polled(c.tasks, id, fresh), ..c }
    } else {
        Core { queue: without_task(c.queue, id), ..c }
    }
}

/// The text that a poll is answered with, before the notices.
pub open spec fn poll_text(
    tasks: Seq<TaskText>,
    id: Seq<char>,
    fresh: Seq<char>,
    exited: bool,
    meta: Option<MetaFile>,
    elapsed_tenths: u64,
    truncate_at: int,
) -> Seq<char> {
    let task = tasks[slot_of(tasks, id)];
    if slot_of(tasks, id) < 0 {
        task_complaint(false, id)
    } else if task.status == TaskStatus::Running && exited {
        frame_text(
            completed_frame(
                id,
                task.command,
                task.output_buffer + fresh,
                elapsed_tenths,
                task.pre_insights,
                meta_pipestatus(meta),
                truncate_at,
            ),
        )
    } else if task.status == TaskStatus::Running {
        frame_text(
            running_frame(
                id,
                task.output_buffer + fresh,
                elapsed_tenths,
                task.has_stdin,
                (byte_len(task.output_buffer + fresh) - task.last_poll_offset) as u64,
                task.pre_insights,
                truncate_at,
            ),
        )
    } else {
        frame_text(
            plain_frame(
                task.status,
                id,
                task.output_buffer,
                elapsed_tenths,
                task.pipestatus,
                truncate_at,
            ),
        )
    }
}

impl ServerState {
    /// One call of `zsh_poll` at `now`, from the sweep to the answer.
    /// `ended` are the running tasks that were found ended; `fresh` is
    /// what the polled task has printed since the last look, to its end
    /// where it has `exited`, and `meta` what the executor wrote about it.
    /// The answer is the report of the task as the sweep has left it,
    /// with the waiting notices before it, those of the polled task left out.
    pub fn poll_call(
        &mut self,
        ended: &Vec<EndedTask>,
        task_id: &str,
        fresh: &str,
        exited: bool,
        meta: Option<MetaFile>,
        elapsed_tenths: u64,
        now: u64,
    ) -> (r: ToolReply)
        requires
            old(self).tasks.wf(),
        ensures
            final(self).tasks.wf(),
            old(self).settings_kept(*final(self)),
            ({
                let mid = swept(old(self).swept_part(), ended@, ended@.len() as int, now);
                let after = polled_part(mid, task_id@, fresh@, exited, meta, now);
                &&& final(self).swept_part() == (Core { queue: Seq::empty(), ..after })
                &&& r.is_error == (slot_of(mid.tasks, task_id@) < 0)
                &&& r.text@ == crate::serve::notices::with_notices(
                    after.queue,
                    poll_text(
                        mid.tasks,
                        task_id@,
                        fresh@,
                        exited,
                        meta,
                        elapsed_tenths,
                        old(self).config.truncate_output_at as int,
                    ),
                )
            }),
            final(self).board() == old(self).board().run(
                tool_call_ops(
                    ended@,
                    if old(self).tasks.knows(task_id@) {
                        Some(Op::Poll { id: task_id@, exited })
                    } else {
                        None
                    },
                ),
            ),
    {
        self.check_and_finalize_background_tasks(ended, now);
        let ghost mid = *self;
        proof {
            lemma_swept_keeps_ids(old(self).swept_part(), ended@, ended@.len() as int, now, task_id@);
        }
        let polled = self.handle_poll(task_id, fresh, exited, elapsed_tenths);
        let ghost after_poll = *self;
        let reply = match polled {
            PollReply::Reply(reply) => reply,
            PollReply::Finalize { command, output, pre_insights, meta_path: _ } => {
                proof {
                    crate::serve::lemma_completed(mid.tasks@, task_id@, fresh@);
                }
                let text = self.finalize_task(
                    task_id,
                    command.as_str(),
                    output.as_str(),
                    elapsed_tenths,
                    &pre_insights,
                    meta,
                    true,
                    now,
                );
                ToolReply { text, is_error: false }
            },
        };
        let ghost before_answer = *self;
        let r = self.answer_tool_call(reply);
        proof {
            let sweep = sweep_ops(ended@, ended@.len() as int);
            let b0 = old(self).board();
            assert(mid.board() == b0.run(sweep));
            assert(before_answer.board() == after_poll.board());
            if old(self).tasks.knows(task_id@) {
                let poll = Op::Poll { id: task_id@, exited };
                crate::serve::notices::lemma_run_push(b0, sweep, poll);
                crate::serve::notices::lemma_run_push(b0, sweep.push(poll), Op::Respond);
                assert(tool_call_ops(ended@, Some(poll)) =~= sweep.push(poll).push(Op::Respond));
            } else {
                crate::serve::notices::lemma_run_push(b0, sweep, Op::Respond);
                assert(tool_call_ops(ended@, None) =~= sweep.push(Op::Respond));
            }
            assert(event_texts(self.event_queue@) =~= Seq::<EventText>::empty());
        }
        r
    }
}

/// The sweep changes no id and removes no task: a task is known after
/// it exactly if it was known before.
pub proof fn lemma_swept_keeps_ids(c: Core, ended: Seq<EndedTask>, n: int, now: u64, id: Seq<char>)
    ensures
        slot_of(swept(c, ended, n, now).tasks, id) == slot_of(c.tasks, id),
    decreases n,
{
    if n > 0 {
        lemma_swept_keeps_ids(c, ended, n - 1, now, id);
        let before = swept(c, ended, n - 1, now);
        let e = ended[n - 1];
        let after = swept_one(before, e, now);
        crate::serve::lemma_slot_of(before.tasks, e.task_id@);
        if is_running(before.tasks, e.task_id@) {
            let ended_tasks = completed(before.tasks, e.task_id@, e.remaining@);
            crate::serve::lemma_same_ids_same_slot(ended_tasks, before.tasks, e.task_id@);
            crate::serve::lemma_same_ids_same_slot(after.tasks, before.tasks, id);
        }
    }
}

/// The tools that the server offers.
#[derive(Clone, Copy, Debug, PartialEq, Eq, Structural)]
pub enum Tool {
    Zsh,
    ZshPoll,
    ZshSend,
    ZshKill,
    ZshTasks,
    ZshHealth,
    ZshAlanStats,
    ZshAlanQuery,
    ZshNeverhangStatus,
    ZshNeverhangReset,
}

/// The tool with the name `name`.
pub open spec fn tool_of(name: Seq<char>) -> Option<Tool> {
    if name == "zsh"@ {
        Some(Tool::Zsh)
    } else if name == "zsh_poll"@ {
        Some(Tool::ZshPoll)
    } else if name == "zsh_send"@ {
        Some(Tool::ZshSend)
    } else if name == "zsh_kill"@ {
        Some(Tool::ZshKill)
    } else if name == "zsh_tasks"@ {
        Some(Tool::ZshTasks)
    } else if name == "zsh_health"@ {
        Some(Tool::ZshHealth)
    } else if name == "zsh_alan_stats"@ {
        Some(Tool::ZshAlanStats)
    } else if name == "zsh_alan_query"@ {
        Some(Tool::ZshAlanQuery)
    } else if name == "zsh_neverhang_status"@ {
        Some(Tool::ZshNeverhangStatus)
    } else if name == "zsh_neverhang_reset"@ {
        Some(Tool::ZshNeverhangReset)
    } else {
        None
    }
}

/// Finds the tool that a call names; where there is none, the complaint
/// that is sent back. A call of a tool begins with the sweep
/// `check_and_finalize_background_tasks` and ends with `answer_tool_call`;
/// `tool_call_ops` gives its steps on the board.
pub fn handle_tool_call(tool_name: &str) -> (r: Result<Tool, ToolReply>)
    ensures
        match r {
            Ok(tool) => tool_of(tool_name@) == Some(tool),
            Err(reply) => tool_of(tool_name@) is None && reply.is_error && reply.text@
                == "Unknown tool: "@ + tool_name@,
        },
{
    let name = chars_of(tool_name);
    if crate::text::is_text(&name, "zsh") {
        Ok(Tool::Zsh)
    } else if crate::text::is_text(&name, "zsh_poll") {
        Ok(Tool::ZshPoll)
    } else if crate::text::is_text(&name, "zsh_send") {
        Ok(Tool::ZshSend)
    } else if crate::text::is_text(&name, "zsh_kill") {
        Ok(Tool::ZshKill)
    } else if crate::text::is_text(&name, "zsh_tasks") {
        Ok(Tool::ZshTasks)
    } else if crate::text::is_text(&name, "zsh_health") {
        Ok(Tool::ZshHealth)
    } else if crate::text::is_text(&name, "zsh_alan_stats") {
        Ok(Tool::ZshAlanStats)
    } else if crate::text::is_text(&name, "zsh_alan_query") {
        Ok(Tool::ZshAlanQuery)
    } else if crate::text::is_text(&name, "zsh_neverhang_status") {
        Ok(Tool::ZshNeverhangStatus)
    } else if crate::text::is_text(&name, "zsh_neverhang_reset") {
        Ok(Tool::ZshNeverhangReset)
    } else {
        let mut message = chars_of("Unknown tool: ");
        extend_str(&mut message, tool_name);
        Err(ToolReply { text: string_of(&message), is_error: true })
    }
}

} // verus!
