use crate::text::{
    byte_len, chars_of, decimal, extend_chars, extend_decimal, extend_str, extend_unsigned,
    fitting_chars, fitting_prefix, join_from, joined, lemma_rows_push, rows, string_of, texts,
    trim, trimmed,
};
use vstd::prelude::*;

verus! {

pub open spec fn green() -> Seq<char> {
    "\x1b[32m"@
}

pub open spec fn red() -> Seq<char> {
    "\x1b[31m"@
}

pub open spec fn yellow() -> Seq<char> {
    "\x1b[33m"@
}

pub open spec fn cyan() -> Seq<char> {
    "\x1b[36m"@
}

pub open spec fn dim() -> Seq<char> {
    "\x1b[2m"@
}

pub open spec fn plain() -> Seq<char> {
    "\x1b[0m"@
}

/// The colour in which an exit code is shown: green for 0, yellow above
/// 128, where a signal ended the command, red otherwise.
pub open spec fn exit_colour(code: int) -> Seq<char> {
    if code == 0 {
        green()
    } else if code > 128 {
        yellow()
    } else {
        red()
    }
}

/// An exit code in its colour.
pub open spec fn coloured_exit(code: int) -> Seq<char> {
    exit_colour(code) + decimal(code) + plain()
}

/// An exit code in its colour.
pub fn color_exit(code: i32) -> (r: String)
    ensures
        r@ == coloured_exit(code as int),
{
    let mut out: Vec<char> = if code == 0 {
        chars_of("\x1b[32m")
    } else if code > 128 {
        chars_of("\x1b[33m")
    } else {
        chars_of("\x1b[31m")
    };
    extend_decimal(&mut out, code as i64);
    extend_str(&mut out, "\x1b[0m");
    string_of(&out)
}

/// What is shown of an output of more than `max_len` bytes: the
/// characters at its front that fit in `max_len` bytes, and a note of
/// what was cut.
pub open spec fn truncated(output: Seq<char>, max_len: int) -> Seq<char> {
    if byte_len(output) <= max_len {
        output
    } else {
        output.take(fitting_chars(output, max_len) as int) + "\n\n[OUTPUT TRUNCATED - "@ + decimal(
            byte_len(output) as int,
        ) + " bytes total, showing first "@ + decimal(max_len) + "]"@
    }
}

/// Cuts an output that is longer than `max_len` bytes and says so at its end.
pub fn truncate_output(output: &str, max_len: usize) -> (r: String)
    ensures
        r@ == truncated(output@, max_len as int),
{
    let total: usize = output.as_bytes().len();
    if total <= max_len {
        return output.to_owned();
    }
    let chars = chars_of(output);
    let mut out = fitting_prefix(&chars, max_len);
    extend_str(&mut out, "\n\n[OUTPUT TRUNCATED - ");
    extend_unsigned(&mut out, total as u64);
    extend_str(&mut out, " bytes total, showing first ");
    extend_unsigned(&mut out, max_len as u64);
    extend_str(&mut out, "]");
    string_of(&out)
}

/// A time given in tenths of a second, in seconds with one decimal.
pub open spec fn seconds_text(tenths: int) -> Seq<char> {
    decimal(tenths / 10) + "."@ + decimal(tenths % 10)
}

pub fn extend_seconds(dst: &mut Vec<char>, tenths: u64)
    ensures
        final(dst)@ == old(dst)@ + seconds_text(tenths as int),
{
    extend_unsigned(dst, tenths / 10);
    extend_str(dst, ".");
    extend_unsigned(dst, tenths % 10);
    assert(dst@ =~= old(dst)@ + seconds_text(tenths as int));
}

/// The tenths of a kibibyte in `bytes`, rounded to the nearest, a half to
/// the even one.
pub open spec fn kib_tenths(bytes: int) -> int {
    let whole = (bytes * 10) / 1024;
    let rest = (bytes * 10) % 1024;
    if rest > 512 || (rest == 512 && whole % 2 == 1) {
        whole + 1
    } else {
        whole
    }
}

/// How much output is new since the last look: nothing for none, bytes
/// below a kibibyte, kibibytes with one decimal from there on.
pub open spec fn delta_text(new_bytes: int) -> Seq<char> {
    if new_bytes >= 1024 {
        " \u{2014} "@ + seconds_text(kib_tenths(new_bytes)) + " KB new"@
    } else if new_bytes > 0 {
        " \u{2014} "@ + decimal(new_bytes) + " B new"@
    } else {
        Seq::empty()
    }
}

fn extend_delta(dst: &mut Vec<char>, new_bytes: u64)
    ensures
        final(dst)@ == old(dst)@ + delta_text(new_bytes as int),
{
    if new_bytes >= 1024 {
        let scaled: u128 = (new_bytes as u128) * 10;
        let whole: u128 = scaled / 1024;
        let rest: u128 = scaled % 1024;
        let tenths: u128 = if rest > 512 || (rest == 512 && whole % 2 == 1) {
            whole + 1
        } else {
            whole
        };
        extend_str(dst, " \u{2014} ");
        extend_unsigned(dst, (tenths / 10) as u64);
        extend_str(dst, ".");
        extend_unsigned(dst, (tenths % 10) as u64);
        extend_str(dst, " KB new");
        assert(dst@ =~= old(dst)@ + delta_text(new_bytes as int));
    } else if new_bytes > 0 {
        extend_str(dst, " \u{2014} ");
        extend_unsigned(dst, new_bytes);
        extend_str(dst, " B new");
        assert(dst@ =~= old(dst)@ + delta_text(new_bytes as int));
    } else {
        assert(dst@ =~= old(dst)@ + delta_text(new_bytes as int));
    }
}


/// Where a task stands.
#[derive(Clone, Copy, Debug, PartialEq, Eq, Structural)]
pub enum TaskStatus {
    Running,
    Completed,
    Timeout,
    Killed,
    Error,
}

/// What a tool call reports of a task.
pub struct TaskFrame {
    pub status: TaskStatus,
    pub task_id: String,
    pub output: String,
    pub error: Option<String>,
    /// The time the task has run, in tenths of a second.
    pub elapsed_tenths: u64,
    pub has_stdin: bool,
    /// The bytes of output that are new since the task was last polled.
    pub new_bytes: u64,
    /// The exit codes of the pipeline's segments; empty where unknown.
    pub pipestatus: Vec<i32>,
    pub info: Vec<String>,
    pub warning: Vec<String>,
}

/// A `TaskFrame` as plain values.
pub struct FrameText {
    pub status: TaskStatus,
    pub task_id: Seq<char>,
    pub output: Seq<char>,
    pub error: Option<Seq<char>>,
    pub elapsed_tenths: u64,
    pub has_stdin: bool,
    pub new_bytes: u64,
    pub pipestatus: Seq<i32>,
    pub info: Seq<Seq<char>>,
    pub warning: Seq<Seq<char>>,
}

impl View for TaskFrame {
    type V = FrameText;

    open spec fn view(&self) -> FrameText {
        FrameText {
            status: self.status,
            task_id: self.task_id@,
            output: self.output@,
            error: crate::text::text_of(self.error),
            elapsed_tenths: self.elapsed_tenths,
            has_stdin: self.has_stdin,
            new_bytes: self.new_bytes,
            pipestatus: self.pipestatus@,
            info: texts(self.info@),
            warning: texts(self.warning@),
        }
    }
}

/// The output as shown: without the line feeds at its end; a note in its
/// place where a completed task printed nothing but white space.
pub open spec fn output_lines(f: FrameText) -> Seq<Seq<char>> {
    if trimmed(f.output).len() > 0 {
        seq![crate::text::without_feeds(f.output)]
    } else if f.status == TaskStatus::Completed {
        seq![dim() + "(no output)"@ + plain()]
    } else {
        Seq::empty()
    }
}

pub open spec fn error_lines(f: FrameText) -> Seq<Seq<char>> {
    match f.error {
        Some(e) => seq![red() + "[error]"@ + plain() + " "@ + e],
        None => Seq::empty(),
    }
}

/// The exit code of the last segment; 0 where none is known.
pub open spec fn overall_exit(pipestatus: Seq<i32>) -> int {
    if pipestatus.len() == 0 {
        0
    } else {
        pipestatus.last() as int
    }
}

pub open spec fn coloured_exits(pipestatus: Seq<i32>) -> Seq<Seq<char>> {
    Seq::new(pipestatus.len(), |i: int| coloured_exit(pipestatus[i] as int))
}

/// The exit code of a task, and those of all segments where it had several.
pub open spec fn exit_text(pipestatus: Seq<i32>) -> Seq<char> {
    if pipestatus.len() > 1 {
        "exit="@ + coloured_exit(overall_exit(pipestatus)) + " pipestatus=["@ + joined(
            coloured_exits(pipestatus),
            ","@,
        ) + "]"@
    } else {
        "exit="@ + coloured_exit(overall_exit(pipestatus))
    }
}

/// The opening of a status line: the word in its colour, the task and the time.
pub open spec fn badge(colour: Seq<char>, word: Seq<char>, f: FrameText) -> Seq<char> {
    colour + word + plain() + " task_id="@ + f.task_id + " elapsed="@ + seconds_text(
        f.elapsed_tenths as int,
    ) + "s"@
}

pub open spec fn closing(colour: Seq<char>) -> Seq<char> {
    colour + "]"@ + plain()
}

pub open spec fn stdin_word(has_stdin: bool) -> Seq<char> {
    if has_stdin {
        "yes"@
    } else {
        "no"@
    }
}

pub open spec fn next_steps() -> Seq<char> {
    "Use zsh_poll to continue, zsh_send to input, zsh_kill to stop."@
}

/// The status line of a task; for a running one, a line on what to do next.
pub open spec fn status_lines(f: FrameText) -> Seq<Seq<char>> {
    match f.status {
        TaskStatus::Running => seq![
            badge(cyan(), "[RUNNING"@, f) + " stdin="@ + stdin_word(f.has_stdin) + delta_text(
                f.new_bytes as int,
            ) + closing(cyan()),
            next_steps(),
        ],
        TaskStatus::Completed => if overall_exit(f.pipestatus) == 0 {
            seq![
                badge(green(), "[COMPLETED"@, f) + " "@ + exit_text(f.pipestatus) + closing(
                    green(),
                ),
            ]
        } else {
            seq![badge(red(), "[FAILED"@, f) + " "@ + exit_text(f.pipestatus) + closing(red())]
        },
        TaskStatus::Timeout => seq![badge(yellow(), "[TIMEOUT"@, f) + closing(yellow())],
        TaskStatus::Killed => seq![badge(red(), "[KILLED"@, f) + closing(red())],
        TaskStatus::Error => seq![badge(red(), "[ERROR"@, f) + closing(red())],
    }
}

/// The insights of one level on one line.
pub open spec fn insight_line(colour: Seq<char>, label: Seq<char>, messages: Seq<Seq<char>>) -> Seq<
    Seq<char>,
> {
    if messages.len() > 0 {
        seq![colour + label + joined(messages, " | "@) + "]"@ + plain()]
    } else {
        Seq::empty()
    }
}

pub open spec fn insight_lines(f: FrameText) -> Seq<Seq<char>> {
    insight_line(dim(), "[info: A.L.A.N.: "@, f.info) + insight_line(
        yellow(),
        "[warning: A.L.A.N.: "@,
        f.warning,
    )
}

/// The lines of a report: output, error, status, insights.
pub open spec fn frame_lines(f: FrameText) -> Seq<Seq<char>> {
    output_lines(f) + error_lines(f) + status_lines(f) + insight_lines(f)
}

/// The text of a report.
pub open spec fn frame_text(f: FrameText) -> Seq<char> {
    joined(frame_lines(f), "\n"@)
}

fn extend_badge(dst: &mut Vec<char>, colour: &str, word: &str, frame: &TaskFrame)
    ensures
        final(dst)@ == old(dst)@ + badge(colour@, word@, frame@),
{
    extend_str(dst, colour);
    extend_str(dst, word);
    extend_str(dst, "\x1b[0m");
    extend_str(dst, " task_id=");
    extend_str(dst, frame.task_id.as_str());
    extend_str(dst, " elapsed=");
    extend_seconds(dst, frame.elapsed_tenths);
    extend_str(dst, "s");
    assert(dst@ =~= old(dst)@ + badge(colour@, word@, frame@));
}

fn extend_closing(dst: &mut Vec<char>, colour: &str)
    ensures
        final(dst)@ == old(dst)@ + closing(colour@),
{
    extend_str(dst, colour);
    extend_str(dst, "]");
    extend_str(dst, "\x1b[0m");
    assert(dst@ =~= old(dst)@ + closing(colour@));
}

fn extend_exit(dst: &mut Vec<char>, pipestatus: &Vec<i32>)
    ensures
        final(dst)@ == old(dst)@ + exit_text(pipestatus@),
{
    let overall: i32 = if pipestatus.len() == 0 {
        0
    } else {
        pipestatus[pipestatus.len() - 1]
    };
    extend_str(dst, "exit=");
    extend_str(dst, color_exit(overall).as_str());
    if pipestatus.len() > 1 {
        let mut all: Vec<Vec<char>> = Vec::new();
        let mut i: usize = 0;
        assert(rows(all@) =~= coloured_exits(pipestatus@).take(0));
        while i < pipestatus.len()
            invariant
                i <= pipestatus.len(),
                rows(all@) == coloured_exits(pipestatus@).take(i as int),
            decreases pipestatus.len() - i,
        {
            let one = chars_of(color_exit(pipestatus[i]).as_str());
            proof {
                lemma_rows_push(all@, one);
            }
            all.push(one);
            assert(rows(all@) =~= coloured_exits(pipestatus@).take(i + 1));
            i += 1;
        }
        assert(coloured_exits(pipestatus@).take(pipestatus.len() as int) =~= coloured_exits(
            pipestatus@,
        ));
        assert(rows(all@).skip(0) =~= rows(all@));
        extend_str(dst, " pipestatus=[");
        extend_chars(dst, &join_from(&all, 0, &chars_of(",")));
        extend_str(dst, "]");
        assert(dst@ =~= old(dst)@ + exit_text(pipestatus@));
    } else {
        assert(dst@ =~= old(dst)@ + exit_text(pipestatus@));
    }
}

fn status_rows(frame: &TaskFrame) -> (r: Vec<Vec<char>>)
    ensures
        rows(r@) == status_lines(frame@),
{
    let mut line: Vec<char> = Vec::new();
    match frame.status {
        TaskStatus::Running => {
            extend_badge(&mut line, "\x1b[36m", "[RUNNING", frame);
            extend_str(&mut line, " stdin=");
            if frame.has_stdin {
                extend_str(&mut line, "yes");
            } else {
                extend_str(&mut line, "no");
            }
            extend_delta(&mut line, frame.new_bytes);
            extend_closing(&mut line, "\x1b[36m");
            assert(line@ =~= status_lines(frame@)[0]);
            let mut out = crate::text::one_row(line);
            let hint = chars_of("Use zsh_poll to continue, zsh_send to input, zsh_kill to stop.");
            proof {
                lemma_rows_push(out@, hint);
            }
            out.push(hint);
            assert(rows(out@) =~= status_lines(frame@));
            out
        },
        TaskStatus::Completed => {
            let failed = frame.pipestatus.len() > 0 && frame.pipestatus[frame.pipestatus.len() - 1]
                != 0;
            if failed {
                extend_badge(&mut line, "\x1b[31m", "[FAILED", frame);
                extend_str(&mut line, " ");
                extend_exit(&mut line, &frame.pipestatus);
                extend_closing(&mut line, "\x1b[31m");
            } else {
                extend_badge(&mut line, "\x1b[32m", "[COMPLETED", frame);
                extend_str(&mut line, " ");
                extend_exit(&mut line, &frame.pipestatus);
                extend_closing(&mut line, "\x1b[32m");
            }
            assert(line@ =~= status_lines(frame@)[0]);
            let out = crate::text::one_row(line);
            assert(rows(out@) =~= status_lines(frame@));
            out
        },
        TaskStatus::Timeout => {
            extend_badge(&mut line, "\x1b[33m", "[TIMEOUT", frame);
            extend_closing(&mut line, "\x1b[33m");
            let out = crate::text::one_row(line);
            assert(rows(out@) =~= status_lines(frame@));
            out
        },
        TaskStatus::Killed => {
            extend_badge(&mut line, "\x1b[31m", "[KILLED", frame);
            extend_closing(&mut line, "\x1b[31m");
            let out = crate::text::one_row(line);
            assert(rows(out@) =~= status_lines(frame@));
            out
        },
        TaskStatus::Error => {
            extend_badge(&mut line, "\x1b[31m", "[ERROR", frame);
            extend_closing(&mut line, "\x1b[31m");
            let out = crate::text::one_row(line);
            assert(rows(out@) =~= status_lines(frame@));
            out
        },
    }
}

fn insight_rows(colour: &str, label: &str, messages: &Vec<String>) -> (r: Vec<Vec<char>>)
    ensures
        rows(r@) == insight_line(colour@, label@, texts(messages@)),
{
    if messages.len() == 0 {
        return crate::text::no_rows();
    }
    let all = crate::text::chars_of_all(messages);
    assert(rows(all@).skip(0) =~= rows(all@));
    let mut line = chars_of(colour);
    extend_str(&mut line, label);
    extend_chars(&mut line, &join_from(&all, 0, &chars_of(" | ")));
    extend_str(&mut line, "]");
    extend_str(&mut line, "\x1b[0m");
    crate::text::one_row(line)
}

/// The text that a tool call returns for a task: its output, an error if
/// there is one, the status line, and the insights by level.
pub fn format_task_output(frame: &TaskFrame) -> (r: String)
    ensures
        r@ == frame_text(frame@),
{
    let mut parts: Vec<Vec<char>> = crate::text::no_rows();
    let printed = chars_of(frame.output.as_str());
    if trim(&printed).len() > 0 {
        let shown = crate::text::one_row(crate::text::strip_feeds(&printed));
        crate::text::extend_rows(&mut parts, &shown);
    } else if frame.status == TaskStatus::Completed {
        let mut note = chars_of("\x1b[2m");
        extend_str(&mut note, "(no output)");
        extend_str(&mut note, "\x1b[0m");
        let shown = crate::text::one_row(note);
        crate::text::extend_rows(&mut parts, &shown);
    }
    assert(rows(parts@) =~= output_lines(frame@));
    match &frame.error {
        Some(e) => {
            let mut line = chars_of("\x1b[31m");
            extend_str(&mut line, "[error]");
            extend_str(&mut line, "\x1b[0m");
            extend_str(&mut line, " ");
            extend_str(&mut line, e.as_str());
            let shown = crate::text::one_row(line);
            crate::text::extend_rows(&mut parts, &shown);
        },
        None => {},
    }
    assert(rows(parts@) =~= output_lines(frame@) + error_lines(frame@));
    crate::text::extend_rows(&mut parts, &status_rows(frame));
    crate::text::extend_rows(&mut parts, &insight_rows("\x1b[2m", "[info: A.L.A.N.: ", &frame.info));
    crate::text::extend_rows(
        &mut parts,
        &insight_rows("\x1b[33m", "[warning: A.L.A.N.: ", &frame.warning),
    );
    assert(rows(parts@) =~= frame_lines(frame@));
    assert(rows(parts@).skip(0) =~= rows(parts@));
    string_of(&join_from(&parts, 0, &chars_of("\n")))
}

} // verus!
