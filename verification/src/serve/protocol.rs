use crate::serve::handlers::ToolReply;
use crate::text::{
    begins_with, byte_len, chars_of, decimal, extend_str, extend_unsigned, is_text, numeral_value,
    parse_numeral, same_chars, slice_chars, starts_with, string_of, trim, trimmed,
};
use vstd::prelude::*;

verus! {

/// The methods that the server answers.
#[derive(Clone, Copy, Debug, PartialEq, Eq, Structural)]
pub enum Method {
    Initialize,
    ToolsList,
    ToolsCall,
    Ping,
}

/// A request as it arrives. The id and the parameters are kept as the
/// JSON text in which they came.
pub struct JsonRpcRequest {
    pub jsonrpc: String,
    pub id: Option<String>,
    pub method: String,
    pub params: Option<String>,
}

/// An error of the protocol.
pub struct JsonRpcError {
    pub code: i64,
    pub message: String,
    pub data: Option<String>,
}

/// A response as it is sent: either a result or an error. The id and the
/// result are JSON texts.
pub struct JsonRpcResponse {
    pub jsonrpc: String,
    pub id: Option<String>,
    pub result: Option<String>,
    pub error: Option<JsonRpcError>,
}

impl JsonRpcRequest {
    /// Whether the request is a notification, which gets no response.
    pub fn is_notification(&self) -> (r: bool)
        ensures
            r == (self.id is None),
    {
        self.id.is_none()
    }
}

impl JsonRpcResponse {
    /// The response that carries a result.
    pub fn success(id: Option<String>, result: String) -> (r: Self)
        ensures
            r.jsonrpc@ == "2.0"@,
            r.id == id,
            r.result == Some(result),
            r.error is None,
    {
        JsonRpcResponse { jsonrpc: "2.0".to_owned(), id, result: Some(result), error: None }
    }

    /// The response that carries an error.
    pub fn error(id: Option<String>, code: i64, message: String) -> (r: Self)
        ensures
            r.jsonrpc@ == "2.0"@,
            r.id == id,
            r.result is None,
            r.error matches Some(e) && e.code == code && e.message == message && e.data is None,
    {
        JsonRpcResponse {
            jsonrpc: "2.0".to_owned(),
            id,
            result: None,
            error: Some(JsonRpcError { code, message, data: None }),
        }
    }
}

/// The answer of a tool that did what it was asked.
pub fn text_content(text: &str) -> (r: ToolReply)
    ensures
        r.text@ == text@,
        !r.is_error,
{
    ToolReply { text: text.to_owned(), is_error: false }
}

/// The answer of a tool that was misused.
pub fn error_content(text: &str) -> (r: ToolReply)
    ensures
        r.text@ == text@,
        r.is_error,
{
    ToolReply { text: text.to_owned(), is_error: true }
}

/// The code for a method that the server does not know.
pub open spec fn method_not_found() -> i64 {
    -32601i64
}

/// The version of the protocol that the server speaks.
pub open spec fn protocol_version() -> Seq<char> {
    "2024-11-05"@
}

/// The method with the name `name`.
pub open spec fn method_of(name: Seq<char>) -> Option<Method> {
    if name == "initialize"@ {
        Some(Method::Initialize)
    } else if name == "tools/list"@ {
        Some(Method::ToolsList)
    } else if name == "tools/call"@ {
        Some(Method::ToolsCall)
    } else if name == "ping"@ {
        Some(Method::Ping)
    } else {
        None
    }
}

/// Finds the method that a request names; where there is none, the
/// error that is sent back.
pub fn handle_request(method: &str) -> (r: Result<Method, JsonRpcError>)
    ensures
        match r {
            Ok(m) => method_of(method@) == Some(m),
            Err(e) => method_of(method@) is None && e.code == method_not_found() && e.message@
                == "Method not found: "@ + method@ && e.data is None,
        },
{
    let name = chars_of(method);
    if is_text(&name, "initialize") {
        Ok(Method::Initialize)
    } else if is_text(&name, "tools/list") {
        Ok(Method::ToolsList)
    } else if is_text(&name, "tools/call") {
        Ok(Method::ToolsCall)
    } else if is_text(&name, "ping") {
        Ok(Method::Ping)
    } else {
        let mut message = chars_of("Method not found: ");
        extend_str(&mut message, method);
        Err(JsonRpcError { code: -32601, message: string_of(&message), data: None })
    }
}

/// What the server says of itself when the connection is set up.
pub struct InitializeResult {
    pub protocol_version: String,
    pub server_name: String,
    pub server_version: String,
}

pub fn initialize_result(server_name: &str, version: &str) -> (r: InitializeResult)
    ensures
        r.protocol_version@ == protocol_version(),
        r.server_name@ == server_name@,
        r.server_version@ == version@,
{
    InitializeResult {
        protocol_version: "2024-11-05".to_owned(),
        server_name: server_name.to_owned(),
        server_version: version.to_owned(),
    }
}

/// Where the reader of messages stands.
#[derive(Clone, Copy, Debug, PartialEq, Eq, Structural)]
pub enum ReaderState {
    /// Before the first line of a message.
    Start,
    /// Within the headers of a message whose body has this many bytes.
    Headers(usize),
}

/// What the reader of messages does next.
pub enum ReadStep {
    /// Read another line.
    ReadLine,
    /// Read a body of this many bytes and parse it.
    ReadBody(usize),
    /// Parse this text as a message.
    Parse(String),
    /// Give up: the input has ended or cannot be understood.
    Stop,
}

/// How the peer frames its messages.
#[derive(Clone, Copy, Debug, PartialEq, Eq, Structural)]
pub enum Framing {
    /// No message has arrived yet.
    Undetected,
    /// One JSON object on each line.
    Bare,
    /// A header with the length, an empty line, then the body.
    Framed,
}

/// The reader of messages: where it stands, and how the peer frames its
/// messages. The framing is found with the first message and kept.
pub struct MessageReader {
    pub state: ReaderState,
    pub mode: Framing,
}

/// Whether `s` begins with `prefix`.
pub open spec fn has_prefix(s: Seq<char>, prefix: Seq<char>) -> bool {
    s.len() >= prefix.len() && s.take(prefix.len() as int) == prefix
}

/// The number of bytes that a header line announces.
pub open spec fn announced_length(line: Seq<char>) -> Option<int> {
    let rest = trimmed(trimmed(line).skip("Content-Length:"@.len() as int));
    if starts_with(rest, '+') {
        numeral_value(rest.skip(1), usize::MAX as int)
    } else {
        numeral_value(rest, usize::MAX as int)
    }
}

/// What a line is at the start of a message.
pub enum FirstLine {
    Blank,
    Json,
    Length(usize),
    BadLength,
    Other,
}

pub open spec fn first_line_of(line: Seq<char>) -> FirstLine {
    let l = trimmed(line);
    if l.len() == 0 {
        FirstLine::Blank
    } else if starts_with(l, '{') {
        FirstLine::Json
    } else if has_prefix(l, "Content-Length:"@) {
        match announced_length(line) {
            Some(n) => FirstLine::Length(n as usize),
            None => FirstLine::BadLength,
        }
    } else {
        FirstLine::Other
    }
}

fn without_prefix(v: &Vec<char>, prefix: &str) -> (r: Option<Vec<char>>)
    ensures
        match r {
            Some(rest) => has_prefix(v@, prefix@) && rest@ == v@.skip(prefix@.len() as int),
            None => !has_prefix(v@, prefix@),
        },
{
    let p = chars_of(prefix);
    if v.len() < p.len() {
        return None;
    }
    let head = slice_chars(v, 0, p.len());
    assert(v@.subrange(0, p.len() as int) =~= v@.take(p.len() as int));
    if same_chars(&head, &p) {
        let rest = slice_chars(v, p.len(), v.len());
        assert(v@.subrange(p.len() as int, v.len() as int) =~= v@.skip(p.len() as int));
        Some(rest)
    } else {
        None
    }
}

fn classify(line: &str) -> (r: (FirstLine, String))
    ensures
        r.0 == first_line_of(line@),
        r.1@ == trimmed(line@),
{
    let l = trim(&chars_of(line));
    let text = string_of(&l);
    if l.len() == 0 {
        (FirstLine::Blank, text)
    } else if begins_with(&l, '{') {
        (FirstLine::Json, text)
    } else {
        match without_prefix(&l, "Content-Length:") {
            Some(after) => {
                let rest = trim(&after);
                let from: usize = if begins_with(&rest, '+') {
                    1
                } else {
                    0
                };
                assert(rest@.skip(0) =~= rest@);
                match parse_numeral(&rest, from, usize::MAX as u64) {
                    Some(n) => (FirstLine::Length(n as usize), text),
                    None => (FirstLine::BadLength, text),
                }
            },
            None => (FirstLine::Other, text),
        }
    }
}

/// What the reader does after a line at the start of a message, and how
/// it goes on. Empty lines are passed over. Before the first message, a
/// line that begins with `{` is a message and fixes the framing as bare,
/// and a line that announces a length opens the headers and fixes it as
/// framed. After that only lines of the fixed framing are taken.
pub open spec fn start_rule(mode: Framing, line: Seq<char>) -> (ReaderState, Framing, ReadStepKind) {
    match first_line_of(line) {
        FirstLine::Blank => (ReaderState::Start, mode, ReadStepKind::ReadLine),
        FirstLine::Json => if mode == Framing::Framed {
            (ReaderState::Start, mode, ReadStepKind::Stop)
        } else {
            (ReaderState::Start, Framing::Bare, ReadStepKind::Parse)
        },
        FirstLine::Length(n) => if mode == Framing::Bare {
            (ReaderState::Start, mode, ReadStepKind::Stop)
        } else {
            (ReaderState::Headers(n), Framing::Framed, ReadStepKind::ReadLine)
        },
        FirstLine::BadLength => (ReaderState::Start, mode, ReadStepKind::Stop),
        FirstLine::Other => (ReaderState::Start, mode, ReadStepKind::Stop),
    }
}

/// The kinds of step of the reader.
#[derive(Clone, Copy, Debug, PartialEq, Eq, Structural)]
pub enum ReadStepKind {
    ReadLine,
    ReadBody,
    Parse,
    Stop,
}

pub open spec fn kind_of(step: ReadStep) -> ReadStepKind {
    match step {
        ReadStep::ReadLine => ReadStepKind::ReadLine,
        ReadStep::ReadBody(_) => ReadStepKind::ReadBody,
        ReadStep::Parse(_) => ReadStepKind::Parse,
        ReadStep::Stop => ReadStepKind::Stop,
    }
}

impl MessageReader {
    /// A reader before the first message.
    pub fn new() -> (r: Self)
        ensures
            r.state == ReaderState::Start,
            r.mode == Framing::Undetected,
    {
        MessageReader { state: ReaderState::Start, mode: Framing::Undetected }
    }

    /// What the reader does after a line; `None` stands for the end of
    /// the input or a failure to read. The framing is fixed by the first
    /// message and does not change afterwards.
    pub fn on_line(&mut self, line: Option<&str>) -> (r: ReadStep)
        ensures
            match line {
                None => r is Stop && *final(self) == *old(self),
                Some(l) => match old(self).state {
                    ReaderState::Start => {
                        &&& final(self).state == start_rule(old(self).mode, l@).0
                        &&& final(self).mode == start_rule(old(self).mode, l@).1
                        &&& kind_of(r) == start_rule(old(self).mode, l@).2
                        &&& r matches ReadStep::Parse(text) ==> text@ == trimmed(l@)
                    },
                    ReaderState::Headers(n) => if trimmed(l@).len() == 0 {
                        &&& r == ReadStep::ReadBody(n)
                        &&& final(self).state == ReaderState::Start
                        &&& final(self).mode == old(self).mode
                    } else {
                        r is ReadLine && *final(self) == *old(self)
                    },
                },
            },
            old(self).mode != Framing::Undetected ==> final(self).mode == old(self).mode,
    {
        let l = match line {
            Some(l) => l,
            None => {
                return ReadStep::Stop;
            },
        };
        match self.state {
            ReaderState::Start => {
                let kind = classify(l);
                match kind.0 {
                    FirstLine::Blank => ReadStep::ReadLine,
                    FirstLine::Json => {
                        if self.mode == Framing::Framed {
                            ReadStep::Stop
                        } else {
                            self.mode = Framing::Bare;
                            ReadStep::Parse(kind.1)
                        }
                    },
                    FirstLine::Length(n) => {
                        if self.mode == Framing::Bare {
                            ReadStep::Stop
                        } else {
                            self.mode = Framing::Framed;
                            self.state = ReaderState::Headers(n);
                            ReadStep::ReadLine
                        }
                    },
                    FirstLine::BadLength => ReadStep::Stop,
                    FirstLine::Other => ReadStep::Stop,
                }
            },
            ReaderState::Headers(n) => {
                if trim(&chars_of(l)).len() == 0 {
                    self.state = ReaderState::Start;
                    ReadStep::ReadBody(n)
                } else {
                    ReadStep::ReadLine
                }
            },
        }
    }

    /// A response as it is sent: followed by a line feed for a peer that
    /// sends bare lines, under a header with its length in bytes otherwise.
    pub fn write_message(&self, body: &str) -> (r: String)
        ensures
            r@ == framed(body@, self.mode == Framing::Bare),
    {
        if self.mode == Framing::Bare {
            let mut out = chars_of(body);
            extend_str(&mut out, "\n");
            string_of(&out)
        } else {
            let mut out = chars_of("Content-Length: ");
            extend_unsigned(&mut out, body.as_bytes().len() as u64);
            extend_str(&mut out, "\r\n\r\n");
            extend_str(&mut out, body);
            string_of(&out)
        }
    }
}

/// A response as it is sent.
pub open spec fn framed(body: Seq<char>, bare: bool) -> Seq<char> {
    if bare {
        body + "\n"@
    } else {
        "Content-Length: "@ + decimal(byte_len(body) as int) + "\r\n\r\n"@ + body
    }
}

} // verus!
