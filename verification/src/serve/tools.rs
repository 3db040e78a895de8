use crate::serve::handlers::tool_of;
use crate::text::{
    chars_of, decimal, digit_char, digit_of, extend_str, extend_unsigned, string_of, texts,
};
use vstd::prelude::*;

verus! {

/// The kind of value that a parameter of a tool takes.
#[derive(Clone, Copy, Debug, PartialEq, Eq, Structural)]
pub enum ParamKind {
    Text,
    Integer,
    Number,
    Boolean,
}

/// A parameter of a tool.
pub struct ToolParam {
    pub name: String,
    pub kind: ParamKind,
    pub description: String,
}

/// A tool as it is described to the client.
pub struct ToolDef {
    pub name: String,
    pub description: String,
    pub properties: Vec<ToolParam>,
    pub required: Vec<String>,
}

/// The names of the tools, in the order in which they are listed.
pub open spec fn tool_names() -> Seq<Seq<char>> {
    seq![
        "zsh"@,
        "zsh_poll"@,
        "zsh_send"@,
        "zsh_kill"@,
        "zsh_tasks"@,
        "zsh_health"@,
        "zsh_alan_stats"@,
        "zsh_alan_query"@,
        "zsh_neverhang_status"@,
        "zsh_neverhang_reset"@,
    ]
}

/// The names of the parameters of the tool at position `i` of the list.
pub open spec fn param_names(i: int) -> Seq<Seq<char>> {
    if i == 0 {
        seq!["command"@, "timeout"@, "yield_after"@, "description"@, "pty"@]
    } else if i == 1 || i == 3 {
        seq!["task_id"@]
    } else if i == 2 {
        seq!["task_id"@, "input"@]
    } else if i == 7 {
        seq!["command"@]
    } else {
        Seq::empty()
    }
}

/// The names of the parameters that the tool at position `i` requires.
pub open spec fn required_names(i: int) -> Seq<Seq<char>> {
    if i == 0 || i == 7 {
        seq!["command"@]
    } else if i == 1 || i == 3 {
        seq!["task_id"@]
    } else if i == 2 {
        seq!["task_id"@, "input"@]
    } else {
        Seq::empty()
    }
}

/// What the tool at position `i` of the list is said to do.
pub open spec fn tool_description(i: int) -> Seq<char> {
    if i == 0 {
        "Execute a zsh command with yield-based oversight. Returns after yield_after seconds with partial output if still running. Use zsh_poll to continue collecting output."@
    } else if i == 1 {
        "Get more output from a running task. Call repeatedly until status is not 'running'."@
    } else if i == 2 {
        "Send input to a running task's stdin. Use for interactive commands that need input."@
    } else if i == 3 {
        "Kill a running task."@
    } else if i == 4 {
        "List all active tasks with their status."@
    } else if i == 5 {
        "Get health status of zsh-tool including NEVERHANG and A.L.A.N. status"@
    } else if i == 6 {
        "Get A.L.A.N. learning database statistics"@
    } else if i == 7 {
        "Query A.L.A.N. for insights about a command pattern"@
    } else if i == 8 {
        "Get NEVERHANG circuit breaker status"@
    } else {
        "Reset NEVERHANG circuit breaker to closed state"@
    }
}

/// The kind of parameter `k` of the tool at position `i`.
pub open spec fn param_kind(i: int, k: int) -> ParamKind {
    if i == 0 && k == 1 {
        ParamKind::Integer
    } else if i == 0 && k == 2 {
        ParamKind::Number
    } else if i == 0 && k == 4 {
        ParamKind::Boolean
    } else {
        ParamKind::Text
    }
}

/// What is said of parameter `k` of the tool at position `i`, for a
/// server with the given defaults.
pub open spec fn param_note(
    i: int,
    k: int,
    timeout_default: u64,
    timeout_max: u64,
    yield_after_ms: u64,
) -> Seq<char> {
    if i == 0 {
        if k == 0 {
            "The zsh command to execute"@
        } else if k == 1 {
            timeout_note(timeout_default, timeout_max)
        } else if k == 2 {
            yield_note(yield_after_ms)
        } else if k == 3 {
            "Human-readable description of what this command does"@
        } else {
            "Use PTY (pseudo-terminal) mode for full terminal emulation. Enables proper handling of interactive prompts, colors, and programs that require a TTY."@
        }
    } else if i == 1 {
        "Task ID returned from zsh command"@
    } else if i == 2 {
        if k == 0 {
            "Task ID of the running command"@
        } else {
            "Text to send to stdin (newline added automatically)"@
        }
    } else if i == 3 {
        "Task ID to kill"@
    } else {
        "Command to query pattern stats for"@
    }
}

pub open spec fn param_texts(v: Seq<ToolParam>) -> Seq<Seq<char>> {
    Seq::new(v.len(), |i: int| v[i].name@)
}

/// The digits of a number below 1000 after the decimal point, without
/// zeros at the end.
pub open spec fn fraction_digits(thousandths: int) -> Seq<char> {
    if thousandths % 10 != 0 {
        seq![
            digit_char(thousandths / 100),
            digit_char((thousandths / 10) % 10),
            digit_char(thousandths % 10),
        ]
    } else if thousandths % 100 != 0 {
        seq![digit_char(thousandths / 100), digit_char((thousandths / 10) % 10)]
    } else {
        seq![digit_char(thousandths / 100)]
    }
}

/// A span of milliseconds in seconds, with as many decimals as it needs.
pub open spec fn seconds_of(ms: u64) -> Seq<char> {
    if ms % 1000 == 0 {
        decimal(ms as int / 1000)
    } else {
        decimal(ms as int / 1000) + "."@ + fraction_digits(ms as int % 1000)
    }
}

pub open spec fn timeout_note(timeout_default: u64, timeout_max: u64) -> Seq<char> {
    "Max execution time in seconds (default: "@ + decimal(timeout_default as int) + ", max: "@
        + decimal(timeout_max as int) + ")"@
}

pub open spec fn yield_note(yield_after_ms: u64) -> Seq<char> {
    "Return control after this many seconds if still running (default: "@ + seconds_of(
        yield_after_ms,
    ) + ")"@
}

fn param(name: &str, kind: ParamKind, description: &str) -> (r: ToolParam)
    ensures
        r.name@ == name@,
        r.kind == kind,
        r.description@ == description@,
{
    ToolParam { name: name.to_owned(), kind, description: description.to_owned() }
}

fn no_params() -> (r: Vec<ToolParam>)
    ensures
        param_texts(r@) == Seq::<Seq<char>>::empty(),
        r@.len() == 0,
{
    let v: Vec<ToolParam> = Vec::new();
    assert(param_texts(v@) =~= Seq::<Seq<char>>::empty());
    v
}

fn no_names() -> (r: Vec<String>)
    ensures
        texts(r@) == Seq::<Seq<char>>::empty(),
{
    let v: Vec<String> = Vec::new();
    assert(texts(v@) =~= Seq::<Seq<char>>::empty());
    v
}

fn one_name(name: &str) -> (r: Vec<String>)
    ensures
        texts(r@) == seq![name@],
{
    let mut v: Vec<String> = Vec::new();
    v.push(name.to_owned());
    assert(texts(v@) =~= seq![name@]);
    v
}

fn task_id_param(description: &str) -> (r: Vec<ToolParam>)
    ensures
        param_texts(r@) == seq!["task_id"@],
        r@.len() == 1,
        r@[0].kind == ParamKind::Text,
        r@[0].description@ == description@,
{
    let mut v: Vec<ToolParam> = Vec::new();
    v.push(param("task_id", ParamKind::Text, description));
    assert(param_texts(v@) =~= seq!["task_id"@]);
    v
}

/// A tool with its name, what it does, its parameters and those of them
/// that a call must give.
pub fn tool_def(name: &str, description: &str, properties: Vec<ToolParam>, required: Vec<String>) -> (r:
    ToolDef)
    ensures
        r.name@ == name@,
        r.description@ == description@,
        r.properties == properties,
        r.required == required,
{
    ToolDef { name: name.to_owned(), description: description.to_owned(), properties, required }
}

fn seconds_text_of(ms: u64) -> (r: Vec<char>)
    ensures
        r@ == seconds_of(ms),
{
    let mut out: Vec<char> = Vec::new();
    extend_unsigned(&mut out, ms / 1000);
    let rest: u64 = ms % 1000;
    if rest != 0 {
        extend_str(&mut out, ".");
        let ghost head = out@;
        out.push(digit_of(rest / 100));
        if rest % 100 != 0 {
            out.push(digit_of((rest / 10) % 10));
            if rest % 10 != 0 {
                out.push(digit_of(rest % 10));
            }
        }
        assert(out@ =~= head + fraction_digits(rest as int));
    }
    assert(out@ =~= seconds_of(ms));
    out
}

/// The tools of the server as they are described to the client. The
/// defaults that the descriptions name are the server's settings.
pub fn list_tools(timeout_default: u64, timeout_max: u64, yield_after_ms: u64) -> (r: Vec<ToolDef>)
    ensures
        r@.len() == 10,
        forall|i: int|
            0 <= i < 10 ==> {
                &&& (#[trigger] r@[i]).name@ == tool_names()[i]
                &&& r@[i].description@ == tool_description(i)
                &&& param_texts(r@[i].properties@) == param_names(i)
                &&& texts(r@[i].required@) == required_names(i)
            },
        forall|i: int, k: int|
            0 <= i < 10 && 0 <= k < param_names(i).len() ==> {
                &&& (#[trigger] r@[i].properties@[k]).kind == param_kind(i, k)
                &&& r@[i].properties@[k].description@ == param_note(
                    i,
                    k,
                    timeout_default,
                    timeout_max,
                    yield_after_ms,
                )
            },
{
    let mut timeout_text = chars_of("Max execution time in seconds (default: ");
    extend_unsigned(&mut timeout_text, timeout_default);
    extend_str(&mut timeout_text, ", max: ");
    extend_unsigned(&mut timeout_text, timeout_max);
    extend_str(&mut timeout_text, ")");
    let mut yield_text = chars_of(
        "Return control after this many seconds if still running (default: ",
    );
    crate::text::extend_chars(&mut yield_text, &seconds_text_of(yield_after_ms));
    extend_str(&mut yield_text, ")");

    let mut zsh_params: Vec<ToolParam> = Vec::new();
    zsh_params.push(param("command", ParamKind::Text, "The zsh command to execute"));
    zsh_params.push(param("timeout", ParamKind::Integer, string_of(&timeout_text).as_str()));
    zsh_params.push(param("yield_after", ParamKind::Number, string_of(&yield_text).as_str()));
    zsh_params.push(
        param(
            "description",
            ParamKind::Text,
            "Human-readable description of what this command does",
        ),
    );
    zsh_params.push(
        param(
            "pty",
            ParamKind::Boolean,
            "Use PTY (pseudo-terminal) mode for full terminal emulation. Enables proper handling of interactive prompts, colors, and programs that require a TTY.",
        ),
    );
    assert(param_texts(zsh_params@) =~= param_names(0));

    let mut send_params: Vec<ToolParam> = Vec::new();
    send_params.push(param("task_id", ParamKind::Text, "Task ID of the running command"));
    send_params.push(
        param("input", ParamKind::Text, "Text to send to stdin (newline added automatically)"),
    );
    assert(param_texts(send_params@) =~= param_names(2));
    let mut send_required: Vec<String> = Vec::new();
    send_required.push("task_id".to_owned());
    send_required.push("input".to_owned());
    assert(texts(send_required@) =~= required_names(2));

    let mut query_params: Vec<ToolParam> = Vec::new();
    query_params.push(param("command", ParamKind::Text, "Command to query pattern stats for"));
    assert(param_texts(query_params@) =~= param_names(7));

    let mut tools: Vec<ToolDef> = Vec::new();
    tools.push(
        tool_def(
            "zsh",
            "Execute a zsh command with yield-based oversight. Returns after yield_after seconds with partial output if still running. Use zsh_poll to continue collecting output.",
            zsh_params,
            one_name("command"),
        ),
    );
    tools.push(
        tool_def(
            "zsh_poll",
            "Get more output from a running task. Call repeatedly until status is not 'running'.",
            task_id_param("Task ID returned from zsh command"),
            one_name("task_id"),
        ),
    );
    tools.push(
        tool_def(
            "zsh_send",
            "Send input to a running task's stdin. Use for interactive commands that need input.",
            send_params,
            send_required,
        ),
    );
    tools.push(tool_def("zsh_kill", "Kill a running task.", task_id_param("Task ID to kill"), one_name("task_id")));
    tools.push(
        tool_def("zsh_tasks", "List all active tasks with their status.", no_params(), no_names()),
    );
    tools.push(
        tool_def(
            "zsh_health",
            "Get health status of zsh-tool including NEVERHANG and A.L.A.N. status",
            no_params(),
            no_names(),
        ),
    );
    tools.push(
        tool_def("zsh_alan_stats", "Get A.L.A.N. learning database statistics", no_params(), no_names()),
    );
    tools.push(
        tool_def(
            "zsh_alan_query",
            "Query A.L.A.N. for insights about a command pattern",
            query_params,
            one_name("command"),
        ),
    );
    tools.push(
        tool_def("zsh_neverhang_status", "Get NEVERHANG circuit breaker status", no_params(), no_names()),
    );
    tools.push(
        tool_def(
            "zsh_neverhang_reset",
            "Reset NEVERHANG circuit breaker to closed state",
            no_params(),
            no_names(),
        ),
    );
    tools
}

/// Every tool that is listed is one that a call can name.
pub proof fn lemma_listed_tools_are_known(i: int)
    requires
        0 <= i < 10,
    ensures
        tool_of(tool_names()[i]) is Some,
{
}

} // verus!
