use crate::meta::ExecResult;
use crate::text::{
    chars_of, extend_str, parse_i32, parsed_i32, rows, split_words, string_of, words_of,
};
use vstd::prelude::*;

verus! {

/// What is added to a command so that the shell reports the exit codes of
/// its pipeline on file descriptor 3.
pub open spec fn status_report() -> Seq<char> {
    "; echo \"${pipestatus[*]}\" >&3"@
}

/// The command line handed to the shell.
pub fn wrap_command(command: &str) -> (r: String)
    ensures
        r@ == command@ + status_report(),
{
    let mut line = chars_of(command);
    extend_str(&mut line, "; echo \"${pipestatus[*]}\" >&3");
    string_of(&line)
}

/// The numbers among `words`, in order; a word that is no number of 32
/// bits is passed over.
pub open spec fn numbers_among(words: Seq<Seq<char>>) -> Seq<i32>
    decreases words.len(),
{
    if words.len() == 0 {
        Seq::empty()
    } else {
        match parsed_i32(words.last()) {
            Some(v) => numbers_among(words.drop_last()).push(v as i32),
            None => numbers_among(words.drop_last()),
        }
    }
}

/// The exit codes that the shell's report holds.
pub open spec fn pipestatus_of(raw: Seq<char>) -> Seq<i32> {
    numbers_among(words_of(raw))
}

/// Reads the shell's report: decimal exit codes separated by white space.
pub fn parse_pipestatus(raw: &str) -> (r: Vec<i32>)
    ensures
        r@ == pipestatus_of(raw@),
{
    let words = split_words(&chars_of(raw));
    let ghost all = rows(words@);
    let mut codes: Vec<i32> = Vec::new();
    let mut i: usize = 0;
    assert(all.take(0) =~= Seq::<Seq<char>>::empty());
    while i < words.len()
        invariant
            i <= words.len(),
            all == rows(words@),
            codes@ == numbers_among(all.take(i as int)),
        decreases words.len() - i,
    {
        assert(all.take(i + 1).drop_last() =~= all.take(i as int));
        assert(all.take(i + 1).last() == words@[i as int]@);
        match parse_i32(&words[i]) {
            Some(code) => {
                codes.push(code);
            },
            None => {},
        }
        i += 1;
    }
    assert(all.take(words.len() as int) =~= all);
    codes
}

/// What a look at the child process shows.
#[derive(Clone, Copy, Debug, PartialEq, Eq, Structural)]
pub enum WaitOutcome {
    /// It has exited with this code.
    Exited(i32),
    /// It was ended by this signal.
    Signaled(i32),
    /// It is still running.
    StillAlive,
    /// The look failed or showed something else.
    Other,
}

/// What the executor does after a look at the child.
#[derive(Clone, Copy, Debug, PartialEq, Eq, Structural)]
pub enum PollStep {
    /// The child is gone; this is its exit code, and it did not time out.
    Finished { exit_code: i32, timed_out: bool },
    /// The child has run too long: kill it and its descendants and reap
    /// it. The run then counts as timed out, with this exit code.
    Kill { exit_code: i32, timed_out: bool },
    /// Wait for the polling interval and look again.
    Sleep,
}

/// The exit code of a child that a signal has ended: unknown on a pipe,
/// 128 plus the signal's number on a terminal.
pub open spec fn signal_exit(pty: bool, signal: i32) -> int {
    if !pty {
        -1
    } else if signal <= i32::MAX - 128 {
        128 + signal
    } else {
        i32::MAX as int
    }
}

/// The step that follows a look at the child after `elapsed_secs` whole
/// seconds, for a command that may run `timeout_secs`. A child that is
/// killed for running too long has the exit code -1.
pub open spec fn poll_rule(pty: bool, outcome: WaitOutcome, elapsed_secs: u64, timeout_secs: u64) -> PollStep {
    match outcome {
        WaitOutcome::Exited(code) => PollStep::Finished { exit_code: code, timed_out: false },
        WaitOutcome::Signaled(signal) => PollStep::Finished {
            exit_code: signal_exit(pty, signal) as i32,
            timed_out: false,
        },
        WaitOutcome::StillAlive => if elapsed_secs >= timeout_secs {
            PollStep::Kill { exit_code: -1i32, timed_out: true }
        } else {
            PollStep::Sleep
        },
        WaitOutcome::Other => PollStep::Finished { exit_code: -1i32, timed_out: false },
    }
}

/// Decides what to do after a look at the child.
pub fn poll_step(pty: bool, outcome: WaitOutcome, elapsed_secs: u64, timeout_secs: u64) -> (r:
    PollStep)
    ensures
        r == poll_rule(pty, outcome, elapsed_secs, timeout_secs),
{
    match outcome {
        WaitOutcome::Exited(code) => PollStep::Finished { exit_code: code, timed_out: false },
        WaitOutcome::Signaled(signal) => {
            if !pty {
                PollStep::Finished { exit_code: -1, timed_out: false }
            } else if signal <= i32::MAX - 128 {
                PollStep::Finished { exit_code: 128 + signal, timed_out: false }
            } else {
                PollStep::Finished { exit_code: i32::MAX, timed_out: false }
            }
        },
        WaitOutcome::StillAlive => {
            if elapsed_secs >= timeout_secs {
                PollStep::Kill { exit_code: -1, timed_out: true }
            } else {
                PollStep::Sleep
            }
        },
        WaitOutcome::Other => PollStep::Finished { exit_code: -1, timed_out: false },
    }
}

/// The exit codes of a finished command: what the shell reported, or the
/// exit code of the shell itself where it reported nothing.
pub open spec fn final_pipestatus(raw: Seq<char>, exit_code: i32) -> Seq<i32> {
    if pipestatus_of(raw).len() == 0 {
        seq![exit_code]
    } else {
        pipestatus_of(raw)
    }
}

/// The result of a finished command, from the shell's report, the exit
/// code of the shell, the time it ran and whether it was killed.
pub fn finish(raw_report: &str, exit_code: i32, elapsed_ms: u64, timed_out: bool) -> (r: ExecResult)
    ensures
        r.pipestatus@ == final_pipestatus(raw_report@, exit_code),
        r.pipestatus@.len() >= 1,
        r.exit_code == r.pipestatus@.last(),
        r.elapsed_ms == elapsed_ms,
        r.timed_out == timed_out,
{
    let mut pipestatus = parse_pipestatus(raw_report);
    if pipestatus.len() == 0 {
        pipestatus.push(exit_code);
        assert(pipestatus@ =~= seq![exit_code]);
    }
    let last: i32 = pipestatus[pipestatus.len() - 1];
    ExecResult { pipestatus, exit_code: last, elapsed_ms, timed_out }
}

/// The result recorded for a command that could not be started.
pub fn failed_to_start() -> (r: ExecResult)
    ensures
        r.pipestatus@.len() == 0,
        r.exit_code == 127,
        r.elapsed_ms == 0,
        !r.timed_out,
{
    ExecResult { pipestatus: Vec::new(), exit_code: 127, elapsed_ms: 0, timed_out: false }
}


/// What a file descriptor of the child refers to.
#[derive(Clone, Copy, Debug, PartialEq, Eq, Structural)]
pub enum Target {
    /// What the descriptor referred to when the child was made.
    Inherited(i32),
    /// The reading end of the pipe for the shell's report.
    ReportRead,
    /// The writing end of the pipe for the shell's report.
    ReportWrite,
    /// The controlling side of the terminal.
    TerminalMaster,
    /// The terminal as the command sees it.
    Terminal,
}

/// A step that the child takes before it becomes the shell.
#[derive(Clone, Copy, Debug, PartialEq, Eq, Structural)]
pub enum ChildStep {
    /// Become the leader of a new process group.
    NewProcessGroup,
    /// Become the leader of a new session.
    NewSession,
    /// Take the terminal behind this descriptor as the controlling terminal.
    TakeTerminal(i32),
    /// Make `to` refer to what `from` refers to.
    Duplicate { from: i32, to: i32 },
    /// Close the descriptor.
    Close(i32),
}

/// The descriptors of the child after a step.
pub open spec fn after_step(table: Map<i32, Target>, step: ChildStep) -> Map<i32, Target> {
    match step {
        ChildStep::Duplicate { from, to } => if table.contains_key(from) {
            table.insert(to, table[from])
        } else {
            table
        },
        ChildStep::Close(fd) => table.remove(fd),
        _ => table,
    }
}

/// The descriptors of the child after the first `n` steps.
pub open spec fn after_steps(table: Map<i32, Target>, steps: Seq<ChildStep>, n: int) -> Map<
    i32,
    Target,
>
    decreases n,
{
    if n <= 0 {
        table
    } else {
        after_step(after_steps(table, steps, n - 1), steps[n - 1])
    }
}

/// The steps of a child on pipes: its own process group, errors merged
/// into the output, the reading end of the report pipe closed, and then
/// the writing end put on descriptor 3.
pub open spec fn pipe_steps(report_read: i32, report_write: i32) -> Seq<ChildStep> {
    seq![
        ChildStep::NewProcessGroup,
        ChildStep::Duplicate { from: 1, to: 2 },
        ChildStep::Close(report_read),
        ChildStep::Duplicate { from: report_write, to: 3 },
    ] + (if report_write != 3 {
        seq![ChildStep::Close(report_write)]
    } else {
        Seq::empty()
    })
}

/// The steps of a child on a terminal: its own session with the
/// terminal as controlling terminal, the terminal on descriptors 0 to 2,
/// the reading end of the report pipe closed, and then the writing end
/// put on descriptor 3.
pub open spec fn pty_steps(master: i32, slave: i32, report_read: i32, report_write: i32) -> Seq<
    ChildStep,
> {
    seq![
        ChildStep::NewSession,
        ChildStep::TakeTerminal(slave),
        ChildStep::Close(master),
        ChildStep::Duplicate { from: slave, to: 0 },
        ChildStep::Duplicate { from: slave, to: 1 },
        ChildStep::Duplicate { from: slave, to: 2 },
    ] + (if slave > 2 {
        seq![ChildStep::Close(slave)]
    } else {
        Seq::empty()
    }) + seq![
        ChildStep::Close(report_read),
        ChildStep::Duplicate { from: report_write, to: 3 },
    ] + (if report_write != 3 {
        seq![ChildStep::Close(report_write)]
    } else {
        Seq::empty()
    })
}

/// The steps that a child on pipes takes before it becomes the shell.
pub fn child_setup_pipe(report_read: i32, report_write: i32) -> (r: Vec<ChildStep>)
    ensures
        r@ == pipe_steps(report_read, report_write),
{
    let mut steps: Vec<ChildStep> = Vec::new();
    steps.push(ChildStep::NewProcessGroup);
    steps.push(ChildStep::Duplicate { from: 1, to: 2 });
    steps.push(ChildStep::Close(report_read));
    steps.push(ChildStep::Duplicate { from: report_write, to: 3 });
    if report_write != 3 {
        steps.push(ChildStep::Close(report_write));
    }
    assert(steps@ =~= pipe_steps(report_read, report_write));
    steps
}

/// The steps that a child on a terminal takes before it becomes the shell.
pub fn child_setup_pty(master: i32, slave: i32, report_read: i32, report_write: i32) -> (r: Vec<
    ChildStep,
>)
    ensures
        r@ == pty_steps(master, slave, report_read, report_write),
{
    let mut steps: Vec<ChildStep> = Vec::new();
    steps.push(ChildStep::NewSession);
    steps.push(ChildStep::TakeTerminal(slave));
    steps.push(ChildStep::Close(master));
    steps.push(ChildStep::Duplicate { from: slave, to: 0 });
    steps.push(ChildStep::Duplicate { from: slave, to: 1 });
    steps.push(ChildStep::Duplicate { from: slave, to: 2 });
    if slave > 2 {
        steps.push(ChildStep::Close(slave));
    }
    steps.push(ChildStep::Close(report_read));
    steps.push(ChildStep::Duplicate { from: report_write, to: 3 });
    if report_write != 3 {
        steps.push(ChildStep::Close(report_write));
    }
    assert(steps@ =~= pty_steps(master, slave, report_read, report_write));
    steps
}

/// The descriptors of a child on pipes when it is made: 0 to 2 as
/// inherited, and the two ends of the report pipe.
pub open spec fn pipe_child(report_read: i32, report_write: i32) -> Map<i32, Target> {
    map![
        0i32 => Target::Inherited(0),
        1i32 => Target::Inherited(1),
        2i32 => Target::Inherited(2),
        report_read => Target::ReportRead,
        report_write => Target::ReportWrite,
    ]
}

/// When a child on pipes becomes the shell, descriptor 3 is the writing
/// end of the report pipe and no other descriptor refers to the pipe,
/// wherever its two ends were; and errors go where the output goes.
pub proof fn lemma_pipe_child_reports_on_three(report_read: i32, report_write: i32)
    requires
        report_read > 2,
        report_write > 2,
        report_read != report_write,
    ensures
        ({
            let steps = pipe_steps(report_read, report_write);
            let table = after_steps(
                pipe_child(report_read, report_write),
                steps,
                steps.len() as int,
            );
            &&& table.contains_key(3) && table[3] == Target::ReportWrite
            &&& forall|fd: i32|
                table.contains_key(fd) && fd != 3 ==> table[fd] != Target::ReportWrite && table[fd]
                    != Target::ReportRead
            &&& table[1] == Target::Inherited(1)
            &&& table[2] == Target::Inherited(1)
        }),
{
    let steps = pipe_steps(report_read, report_write);
    let start = pipe_child(report_read, report_write);
    let t0 = after_steps(start, steps, 0);
    let t1 = after_steps(start, steps, 1);
    let t2 = after_steps(start, steps, 2);
    let t3 = after_steps(start, steps, 3);
    let t4 = after_steps(start, steps, 4);
    assert(t1 == start);
    assert(t2 == start.insert(2, Target::Inherited(1)));
    assert(t3 == t2.remove(report_read));
    assert(t3.contains_key(report_write));
    assert(t4 == t3.insert(3, Target::ReportWrite));
    if report_write != 3 {
        let t5 = after_steps(start, steps, 5);
        assert(t5 == t4.remove(report_write));
    }
}


/// The descriptors of a child on a terminal when it is made: 0 to 2 as
/// inherited, the two sides of the terminal, and the two ends of the
/// report pipe.
pub open spec fn pty_child(master: i32, slave: i32, report_read: i32, report_write: i32) -> Map<
    i32,
    Target,
> {
    map![
        0i32 => Target::Inherited(0),
        1i32 => Target::Inherited(1),
        2i32 => Target::Inherited(2),
        master => Target::TerminalMaster,
        slave => Target::Terminal,
        report_read => Target::ReportRead,
        report_write => Target::ReportWrite,
    ]
}

/// When a child on a terminal becomes the shell, descriptors 0 to 2 are
/// the terminal, descriptor 3 is the writing end of the report pipe, and
/// no other descriptor refers to the pipe or to the controlling side of
/// the terminal, wherever they were.
pub proof fn lemma_pty_child_reports_on_three(
    master: i32,
    slave: i32,
    report_read: i32,
    report_write: i32,
)
    requires
        master > 2,
        slave > 2,
        report_read > 2,
        report_write > 2,
        master != slave,
        master != report_read,
        master != report_write,
        slave != report_read,
        slave != report_write,
        report_read != report_write,
    ensures
        ({
            let steps = pty_steps(master, slave, report_read, report_write);
            let table = after_steps(
                pty_child(master, slave, report_read, report_write),
                steps,
                steps.len() as int,
            );
            &&& table.contains_key(3) && table[3] == Target::ReportWrite
            &&& table[0] == Target::Terminal
            &&& table[1] == Target::Terminal
            &&& table[2] == Target::Terminal
            &&& forall|fd: i32|
                table.contains_key(fd) && fd != 3 ==> table[fd] != Target::ReportWrite && table[fd]
                    != Target::ReportRead && table[fd] != Target::TerminalMaster
        }),
{
    let steps = pty_steps(master, slave, report_read, report_write);
    let start = pty_child(master, slave, report_read, report_write);
    let t2 = after_steps(start, steps, 2);
    let t3 = after_steps(start, steps, 3);
    let t4 = after_steps(start, steps, 4);
    let t5 = after_steps(start, steps, 5);
    let t6 = after_steps(start, steps, 6);
    let t7 = after_steps(start, steps, 7);
    let t8 = after_steps(start, steps, 8);
    let t9 = after_steps(start, steps, 9);
    let fixed = seq![
        ChildStep::NewSession,
        ChildStep::TakeTerminal(slave),
        ChildStep::Close(master),
        ChildStep::Duplicate { from: slave, to: 0 },
        ChildStep::Duplicate { from: slave, to: 1 },
        ChildStep::Duplicate { from: slave, to: 2 },
        ChildStep::Close(slave),
        ChildStep::Close(report_read),
        ChildStep::Duplicate { from: report_write, to: 3 },
    ];
    assert(steps =~= fixed + (if report_write != 3 {
        seq![ChildStep::Close(report_write)]
    } else {
        Seq::empty()
    }));
    assert(after_steps(start, steps, 0) == start);
    assert(after_steps(start, steps, 1) == start);
    assert(t2 == start);
    assert(t3 == start.remove(master));
    assert(t3.contains_key(slave));
    assert(t4 == t3.insert(0, Target::Terminal));
    assert(t5 == t4.insert(1, Target::Terminal));
    assert(t6 == t5.insert(2, Target::Terminal));
    assert(t7 == t6.remove(slave));
    assert(t8 == t7.remove(report_read));
    assert(t8.contains_key(report_write));
    assert(t9 == t8.insert(3, Target::ReportWrite));
    if report_write != 3 {
        let t10 = after_steps(start, steps, 10);
        assert(t10 == t9.remove(report_write));
    }
}

} // verus!
