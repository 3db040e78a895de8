use vstd::prelude::*;

verus! {

/// `text` with every non-overlapping match of the regular expression
/// `pattern` replaced by `with`. This names what `regex::Regex::replace_all`
/// returns on the compiled `pattern`.
pub uninterp spec fn regex_replaced(pattern: Seq<char>, text: Seq<char>, with: Seq<char>) -> Seq<
    char,
>;

/// Whether the regular expression `pattern` matches somewhere in `text`.
/// This names what `regex::Regex::is_match` returns on the compiled `pattern`.
pub uninterp spec fn regex_matches(pattern: Seq<char>, text: Seq<char>) -> bool;

/// The capture groups of the first match of the regular expression
/// `pattern` in `text`, the whole match first; `None` where nothing
/// matches, and within a match `None` for a group that took no part in it.
/// This names what `regex::Regex::captures` returns on the compiled `pattern`.
pub uninterp spec fn regex_captures(pattern: Seq<char>, text: Seq<char>) -> Option<
    Seq<Option<Seq<char>>>,
>;

/// A run of white space.
pub open spec fn pattern_space() -> Seq<char> {
    "\\s+"@
}

/// A double-quoted span.
pub open spec fn pattern_double_quoted() -> Seq<char> {
    "\"[^\"]*\""@
}

/// A single-quoted span.
pub open spec fn pattern_single_quoted() -> Seq<char> {
    "'[^']*'"@
}

/// A run of digits between word boundaries.
pub open spec fn pattern_number() -> Seq<char> {
    "\\b\\d+\\b"@
}

/// The heading of a section in a manual page.
pub open spec fn pattern_heading() -> Seq<char> {
    "^[A-Z][A-Z /()-]+$"@
}

/// An indented line that begins with an option.
pub open spec fn pattern_option_line() -> Seq<char> {
    "^( {4,12})(-.+)$"@
}

/// A line of description under an option.
pub open spec fn pattern_description_line() -> Seq<char> {
    "^[\\t][\\t ]*(\\S.*)$"@
}

/// An option, alone or as a short and a long form, and what follows it.
pub open spec fn pattern_flags() -> Seq<char> {
    "^(-\\w(?:,\\s+--[^\\s]+)?|--[^\\s]+)(?:\\s+(.+))?$"@
}

/// The patterns that this library searches with. Each is valid in the
/// syntax of the `regex` crate.
pub open spec fn known_pattern(p: Seq<char>) -> bool {
    ||| p == pattern_space()
    ||| p == pattern_double_quoted()
    ||| p == pattern_single_quoted()
    ||| p == pattern_number()
    ||| p == pattern_heading()
    ||| p == pattern_option_line()
    ||| p == pattern_description_line()
    ||| p == pattern_flags()
}

/// The texts of the capture groups of a match.
pub open spec fn group_texts(groups: Seq<Option<String>>) -> Seq<Option<Seq<char>>> {
    Seq::new(
        groups.len(),
        |i: int|
            match groups[i] {
                Some(s) => Some(s@),
                None => None,
            },
    )
}

/// The texts of the capture groups of a search.
pub open spec fn capture_texts(found: Option<Vec<Option<String>>>) -> Option<
    Seq<Option<Seq<char>>>,
> {
    match found {
        Some(groups) => Some(group_texts(groups@)),
        None => None,
    }
}

/// Compiles `pattern` with `regex::Regex::new` and calls
/// `regex::Regex::replace_all`. The patterns let in are valid, so the
/// compilation succeeds; the contract gives the result its name and
/// claims nothing else of it.
#[verifier::external_body]
pub(crate) fn replace_all(pattern: &str, text: &str, with: &str) -> (r: String)
    requires
        known_pattern(pattern@),
    ensures
        r@ == regex_replaced(pattern@, text@, with@),
{
    match regex::Regex::new(pattern) {
        Ok(re) => re.replace_all(text, with).into_owned(),
        Err(_) => String::from(text),
    }
}

/// Compiles `pattern` with `regex::Regex::new` and calls
/// `regex::Regex::is_match`. The contract gives the answer its name.
#[verifier::external_body]
pub(crate) fn is_match(pattern: &str, text: &str) -> (r: bool)
    requires
        known_pattern(pattern@),
    ensures
        r == regex_matches(pattern@, text@),
{
    match regex::Regex::new(pattern) {
        Ok(re) => re.is_match(text),
        Err(_) => false,
    }
}

/// Compiles `pattern` with `regex::Regex::new`, calls
/// `regex::Regex::captures` and copies the text of each group in the order
/// of `regex::Captures::iter`. The contract gives the result its name.
#[verifier::external_body]
pub(crate) fn captures(pattern: &str, text: &str) -> (r: Option<Vec<Option<String>>>)
    requires
        known_pattern(pattern@),
    ensures
        capture_texts(r) == regex_captures(pattern@, text@),
{
    match regex::Regex::new(pattern) {
        Ok(re) => re.captures(text).map(
            |found| found.iter().map(|group| group.map(|m| m.as_str().to_string())).collect(),
        ),
        Err(_) => None,
    }
}

} // verus!
