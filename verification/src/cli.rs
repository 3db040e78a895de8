use crate::text::{
    chars_of, chars_of_all, is_text, join_from, joined, parse_u64, parsed_u64, rows, string_of,
    text_of, texts,
};
use vstd::prelude::*;

verus! {

/// What the executor is asked to do.
pub struct ExecArgs {
    pub meta_path: String,
    pub timeout_secs: u64,
    pub pty: bool,
    pub command: String,
    pub db_path: Option<String>,
    pub session_id: Option<String>,
}

/// An `ExecArgs` as plain values.
pub struct ExecArgsText {
    pub meta_path: Seq<char>,
    pub timeout_secs: u64,
    pub pty: bool,
    pub command: Seq<char>,
    pub db_path: Option<Seq<char>>,
    pub session_id: Option<Seq<char>>,
}

impl View for ExecArgs {
    type V = ExecArgsText;

    open spec fn view(&self) -> ExecArgsText {
        ExecArgsText {
            meta_path: self.meta_path@,
            timeout_secs: self.timeout_secs,
            pty: self.pty,
            command: self.command@,
            db_path: text_of(self.db_path),
            session_id: text_of(self.session_id),
        }
    }
}

/// The arguments are not those of the executor: print how it is used.
#[derive(Debug, PartialEq, Eq)]
pub struct UsageError;

/// What holds before any argument is read.
pub open spec fn exec_defaults() -> ExecArgsText {
    ExecArgsText {
        meta_path: Seq::empty(),
        timeout_secs: 120,
        pty: false,
        command: Seq::empty(),
        db_path: None,
        session_id: None,
    }
}

/// The time limit that an argument gives: the number it writes, or 120.
pub open spec fn timeout_of(text: Seq<char>) -> u64 {
    match parsed_u64(text) {
        Some(n) => n as u64,
        None => 120,
    }
}

/// Reads the arguments from position `i` on. An option that needs a
/// value takes the next argument; `--` and the first argument that is no
/// option make all that follows the command, joined by spaces. `None`
/// where the value of `--meta`, `--db` or `--session-id` is missing.
pub open spec fn args_walk(args: Seq<Seq<char>>, i: int, acc: ExecArgsText) -> Option<ExecArgsText>
    decreases args.len() - i,
{
    if i < 0 || i >= args.len() {
        Some(acc)
    } else if args[i] == "--meta"@ {
        if i + 1 < args.len() {
            args_walk(args, i + 2, ExecArgsText { meta_path: args[i + 1], ..acc })
        } else {
            None
        }
    } else if args[i] == "--timeout"@ {
        if i + 1 < args.len() {
            args_walk(args, i + 2, ExecArgsText { timeout_secs: timeout_of(args[i + 1]), ..acc })
        } else {
            Some(ExecArgsText { timeout_secs: 120, ..acc })
        }
    } else if args[i] == "--db"@ {
        if i + 1 < args.len() {
            args_walk(args, i + 2, ExecArgsText { db_path: Some(args[i + 1]), ..acc })
        } else {
            None
        }
    } else if args[i] == "--session-id"@ {
        if i + 1 < args.len() {
            args_walk(args, i + 2, ExecArgsText { session_id: Some(args[i + 1]), ..acc })
        } else {
            None
        }
    } else if args[i] == "--pty"@ {
        args_walk(args, i + 1, ExecArgsText { pty: true, ..acc })
    } else if args[i] == "--"@ {
        if i + 1 < args.len() {
            Some(ExecArgsText { command: joined(args.skip(i + 1), " "@), ..acc })
        } else {
            Some(acc)
        }
    } else {
        Some(ExecArgsText { command: joined(args.skip(i), " "@), ..acc })
    }
}

/// What the arguments ask for, where they name a file for the result
/// and a command.
pub open spec fn exec_args_of(args: Seq<Seq<char>>) -> Option<ExecArgsText> {
    match args_walk(args, 0, exec_defaults()) {
        Some(a) => if a.meta_path.len() == 0 || a.command.len() == 0 {
            None
        } else {
            Some(a)
        },
        None => None,
    }
}

/// Reads the arguments of the executor.
pub fn parse_exec_args(args: &Vec<String>) -> (r: Result<ExecArgs, UsageError>)
    ensures
        match r {
            Ok(a) => exec_args_of(texts(args@)) == Some(a@),
            Err(_) => exec_args_of(texts(args@)) is None,
        },
{
    let words = chars_of_all(args);
    let ghost all = texts(args@);
    let space = chars_of(" ");
    let mut parsed = ExecArgs {
        meta_path: String::new(),
        timeout_secs: 120,
        pty: false,
        command: String::new(),
        db_path: None,
        session_id: None,
    };
    let mut i: usize = 0;
    while i < words.len()
        invariant
            i <= words.len(),
            rows(words@) == all,
            all == texts(args@),
            words.len() == args.len(),
            space@ == " "@,
            args_walk(all, 0, exec_defaults()) == args_walk(all, i as int, parsed@),
        decreases words.len() - i,
    {
        let word = &words[i];
        assert(all[i as int] == word@);
        let has_next = i + 1 < words.len();
        if is_text(word, "--meta") {
            if !has_next {
                return Err(UsageError);
            }
            assert(all[i + 1] == args@[i + 1]@);
            parsed.meta_path = args[i + 1].clone();
            i += 2;
        } else if is_text(word, "--timeout") {
            if !has_next {
                parsed.timeout_secs = 120;
                i += 1;
            } else {
                assert(all[i + 1] == words@[i + 1]@);
                parsed.timeout_secs = match parse_u64(&words[i + 1]) {
                    Some(n) => n,
                    None => 120,
                };
                i += 2;
            }
        } else if is_text(word, "--db") {
            if !has_next {
                return Err(UsageError);
            }
            assert(all[i + 1] == args@[i + 1]@);
            parsed.db_path = Some(args[i + 1].clone());
            i += 2;
        } else if is_text(word, "--session-id") {
            if !has_next {
                return Err(UsageError);
            }
            assert(all[i + 1] == args@[i + 1]@);
            parsed.session_id = Some(args[i + 1].clone());
            i += 2;
        } else if is_text(word, "--pty") {
            parsed.pty = true;
            i += 1;
        } else if is_text(word, "--") {
            if has_next {
                parsed.command = string_of(&join_from(&words, i + 1, &space));
            }
            i = words.len();
        } else {
            parsed.command = string_of(&join_from(&words, i, &space));
            i = words.len();
        }
    }
    if parsed.meta_path.as_str().is_empty() || parsed.command.as_str().is_empty() {
        Err(UsageError)
    } else {
        Ok(parsed)
    }
}

} // verus!
