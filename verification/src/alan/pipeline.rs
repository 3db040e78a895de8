use crate::text::{chars_of, lemma_texts_push, slice_chars, string_of, texts, trim, trimmed};
use vstd::prelude::*;

verus! {

/// What the scanner remembers between two characters of a shell line.
#[derive(Clone, Copy, Debug, PartialEq, Eq, Structural)]
pub struct Scan {
    /// Inside a single-quoted span.
    pub single: bool,
    /// Inside a double-quoted span.
    pub double: bool,
    /// The previous character was a backslash that escapes this one.
    pub escape: bool,
    /// The previous character opened a `||`; this one closes it.
    pub or_tail: bool,
}

pub open spec fn scan_start() -> Scan {
    Scan { single: false, double: false, escape: false, or_tail: false }
}

/// The scanner's state after it has read `c`, where `bar_follows` says
/// whether the character after `c` is a `|`.
pub open spec fn scan_step(st: Scan, c: char, bar_follows: bool) -> Scan {
    if st.or_tail {
        Scan { or_tail: false, ..st }
    } else if st.escape {
        Scan { escape: false, ..st }
    } else if c == '\\' {
        Scan { escape: true, ..st }
    } else if c == '\'' && !st.double {
        Scan { single: !st.single, ..st }
    } else if c == '"' && !st.single {
        Scan { double: !st.double, ..st }
    } else if c == '|' && !st.single && !st.double && bar_follows {
        Scan { or_tail: true, ..st }
    } else {
        st
    }
}

pub open spec fn bar_at(s: Seq<char>, i: int) -> bool {
    0 <= i < s.len() && s[i] == '|'
}

/// The scanner's state just before it reads `s[i]`.
pub open spec fn scan_at(s: Seq<char>, i: int) -> Scan
    decreases i,
{
    if i <= 0 {
        scan_start()
    } else {
        scan_step(scan_at(s, i - 1), s[i - 1], bar_at(s, i))
    }
}

/// Whether `s[i]` separates two pipeline segments: a `|` that is neither
/// quoted nor escaped nor part of a `||`.
pub open spec fn splits_at(s: Seq<char>, i: int) -> bool {
    let st = scan_at(s, i);
    &&& bar_at(s, i)
    &&& !st.or_tail
    &&& !st.escape
    &&& !st.single
    &&& !st.double
    &&& !bar_at(s, i + 1)
}

/// Where the segment that is still open after `n` characters begins.
pub open spec fn open_start(s: Seq<char>, n: int) -> int
    decreases n,
{
    if n <= 0 {
        0
    } else if splits_at(s, n - 1) {
        n
    } else {
        open_start(s, n - 1)
    }
}

/// `acc` with the trimmed `raw` added, unless nothing is left of it.
pub open spec fn with_segment(acc: Seq<Seq<char>>, raw: Seq<char>) -> Seq<Seq<char>> {
    if trimmed(raw).len() == 0 {
        acc
    } else {
        acc.push(trimmed(raw))
    }
}

/// The segments that a separator among the first `n` characters has closed.
pub open spec fn closed_segments(s: Seq<char>, n: int) -> Seq<Seq<char>>
    decreases n,
{
    if n <= 0 {
        Seq::empty()
    } else if splits_at(s, n - 1) {
        with_segment(closed_segments(s, n - 1), s.subrange(open_start(s, n - 1), n - 1))
    } else {
        closed_segments(s, n - 1)
    }
}

/// The segments of a shell line: the text between separators, trimmed,
/// with empty segments left out.
pub open spec fn pipeline_segments(s: Seq<char>) -> Seq<Seq<char>> {
    with_segment(
        closed_segments(s, s.len() as int),
        s.subrange(open_start(s, s.len() as int), s.len() as int),
    )
}

/// No segment is empty.
pub proof fn lemma_closed_segments_nonempty(s: Seq<char>, n: int)
    ensures
        forall|k: int| 0 <= k < closed_segments(s, n).len() ==> (#[trigger] closed_segments(s, n)[k]).len() > 0,
    decreases n,
{
    if n > 0 {
        lemma_closed_segments_nonempty(s, n - 1);
        let before = closed_segments(s, n - 1);
        assert forall|k: int| 0 <= k < closed_segments(s, n).len() implies (
        #[trigger] closed_segments(s, n)[k]).len() > 0 by {
            if k < before.len() {
                assert(closed_segments(s, n)[k] == before[k]);
            }
        }
    }
}

/// No segment of a pipeline is empty.
pub proof fn lemma_segments_nonempty(s: Seq<char>)
    ensures
        forall|k: int| 0 <= k < pipeline_segments(s).len() ==> (#[trigger] pipeline_segments(s)[k]).len() > 0,
{
    lemma_closed_segments_nonempty(s, s.len() as int);
    let before = closed_segments(s, s.len() as int);
    assert forall|k: int| 0 <= k < pipeline_segments(s).len() implies (
    #[trigger] pipeline_segments(s)[k]).len() > 0 by {
        if k < before.len() {
            assert(pipeline_segments(s)[k] == before[k]);
        }
    }
}

fn add_segment(segments: &mut Vec<String>, chars: &Vec<char>, from: usize, to: usize)
    requires
        from <= to <= chars.len(),
    ensures
        texts(final(segments)@) == with_segment(
            texts(old(segments)@),
            chars@.subrange(from as int, to as int),
        ),
{
    let raw = slice_chars(chars, from, to);
    let seg = trim(&raw);
    if seg.len() > 0 {
        let text = string_of(&seg);
        proof {
            lemma_texts_push(segments@, text);
        }
        segments.push(text);
    }
}

/// Splits a shell line at its unquoted pipes. A `||` is no pipe; a
/// backslash keeps the next character from being read as a quote or a pipe.
pub fn parse_pipeline(command: &str) -> (r: Vec<String>)
    ensures
        texts(r@) == pipeline_segments(command@),
{
    let chars = chars_of(command);
    let n: usize = chars.len();
    let mut segments: Vec<String> = Vec::new();
    let mut st = Scan { single: false, double: false, escape: false, or_tail: false };
    let mut start: usize = 0;
    let mut i: usize = 0;
    assert(texts(segments@) =~= closed_segments(chars@, 0));
    while i < n
        invariant
            i <= n == chars.len(),
            st == scan_at(chars@, i as int),
            start == open_start(chars@, i as int),
            start <= i,
            texts(segments@) == closed_segments(chars@, i as int),
        decreases n - i,
    {
        let c = chars[i];
        let bar_follows = i + 1 < n && chars[i + 1] == '|';
        assert(bar_follows == bar_at(chars@, i + 1));
        if st.or_tail {
            st.or_tail = false;
        } else if st.escape {
            st.escape = false;
        } else if c == '\\' {
            st.escape = true;
        } else if c == '\'' && !st.double {
            st.single = !st.single;
        } else if c == '"' && !st.single {
            st.double = !st.double;
        } else if c == '|' && !st.single && !st.double {
            if bar_follows {
                st.or_tail = true;
            } else {
                assert(splits_at(chars@, i as int));
                add_segment(&mut segments, &chars, start, i);
                start = i + 1;
            }
        }
        i += 1;
    }
    add_segment(&mut segments, &chars, start, n);
    segments
}

} // verus!
