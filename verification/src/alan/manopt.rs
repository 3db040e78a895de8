use crate::alan::insights::cached_options;
use crate::alan::store::{manopt_texts, ManoptEntry, ManoptText, Store, StoreText};
use crate::clock::now_rfc3339;
use crate::pattern::{
    captures, group_texts, is_match, pattern_description_line, pattern_flags, pattern_heading,
    pattern_option_line, regex_captures, regex_matches,
};
use crate::text::{
    chars_of, copy_chars, extend_chars, extend_repeated, extend_str, is_text, join_from, joined,
    lemma_pair_texts_push, lemma_rows_push, lines_of, pair_texts, repeated, rows, split_lines,
    string_of, strings_of, text_of, texts, trim, trim_str, trimmed,
};
use vstd::prelude::*;
use vstd::utf8::encode_utf8;

verus! {

/// Whether a line of a manual page is the heading of a section: more than
/// two bytes of capitals, spaces and a few signs, once trimmed.
pub open spec fn is_heading(line: Seq<char>) -> bool {
    encode_utf8(trimmed(line)).len() > 2 && regex_matches(pattern_heading(), trimmed(line))
}

/// The first heading at or after line `from`, or the number of lines.
pub open spec fn section_end(lines: Seq<Seq<char>>, from: int) -> int
    decreases lines.len() - from,
{
    if from < 0 || from >= lines.len() {
        lines.len() as int
    } else if is_heading(lines[from]) {
        from
    } else {
        section_end(lines, from + 1)
    }
}

/// The lines under the headings `name` among the first `n` lines, each
/// section up to the next heading.
pub open spec fn section_bodies(lines: Seq<Seq<char>>, name: Seq<char>, n: int) -> Seq<Seq<char>>
    decreases n,
{
    if n <= 0 {
        Seq::empty()
    } else if is_heading(lines[n - 1]) && trimmed(lines[n - 1]) == name {
        section_bodies(lines, name, n - 1) + lines.subrange(n, section_end(lines, n))
    } else {
        section_bodies(lines, name, n - 1)
    }
}

/// The lines of all sections with the heading `name`.
pub open spec fn sections_named(lines: Seq<Seq<char>>, name: Seq<char>) -> Seq<Seq<char>> {
    section_bodies(lines, name, lines.len() as int)
}

/// The lines of the sections that list options, in the order in which the
/// kinds of section are preferred.
pub open spec fn preferred_sections(lines: Seq<Seq<char>>) -> Seq<Seq<char>> {
    sections_named(lines, "ALL OPTIONS"@) + sections_named(lines, "OPTIONS"@) + sections_named(
        lines,
        "COMMAND OPTIONS"@,
    ) + sections_named(lines, "GENERAL OPTIONS"@) + sections_named(lines, "GLOBAL OPTIONS"@)
        + sections_named(lines, "COMMON OPTIONS"@)
}

/// The part of a manual page in which its options are looked for: the
/// sections that list options, or the description where there is none.
pub open spec fn options_section(lines: Seq<Seq<char>>) -> Seq<Seq<char>> {
    if preferred_sections(lines).len() > 0 {
        preferred_sections(lines)
    } else {
        sections_named(lines, "DESCRIPTION"@)
    }
}

fn heading_name(line: &Vec<char>) -> (r: Option<Vec<char>>)
    ensures
        match r {
            Some(name) => is_heading(line@) && name@ == trimmed(line@),
            None => !is_heading(line@),
        },
{
    let name = trim(line);
    let text = string_of(&name);
    if text.as_str().as_bytes().len() > 2 && is_match("^[A-Z][A-Z /()-]+$", text.as_str()) {
        Some(name)
    } else {
        None
    }
}

fn append_sections(
    out: &mut Vec<Vec<char>>,
    lines: &Vec<Vec<char>>,
    names: &Vec<Option<Vec<char>>>,
    name: &str,
)
    requires
        names.len() == lines.len(),
        forall|i: int|
            0 <= i < lines.len() ==> match #[trigger] names[i] {
                Some(n) => is_heading(lines[i]@) && n@ == trimmed(lines[i]@),
                None => !is_heading(lines[i]@),
            },
    ensures
        rows(final(out)@) == rows(old(out)@) + sections_named(rows(lines@), name@),
{
    let ghost all = rows(lines@);
    let ghost before = rows(out@);
    let n: usize = lines.len();
    let mut i: usize = 0;
    assert(rows(out@) =~= before + section_bodies(all, name@, 0));
    while i < n
        invariant
            i <= n == lines.len() == names.len(),
            all == rows(lines@),
            forall|k: int|
                0 <= k < lines.len() ==> match #[trigger] names[k] {
                    Some(n) => is_heading(lines[k]@) && n@ == trimmed(lines[k]@),
                    None => !is_heading(lines[k]@),
                },
            rows(out@) == before + section_bodies(all, name@, i as int),
        decreases n - i,
    {
        let under = match &names[i] {
            Some(found) => is_text(found, name),
            None => false,
        };
        assert(all[i as int] == lines[i as int]@);
        assert(under == (is_heading(all[i as int]) && trimmed(all[i as int]) == name@));
        if under {
            let ghost base = rows(out@);
            let mut j: usize = i + 1;
            assert(rows(out@) =~= base + all.subrange(i + 1, j as int));
            while j < n && names[j].is_none()
                invariant
                    i < j <= n == lines.len() == names.len(),
                    all == rows(lines@),
                    forall|k: int|
                        0 <= k < lines.len() ==> match #[trigger] names[k] {
                            Some(n) => is_heading(lines[k]@) && n@ == trimmed(lines[k]@),
                            None => !is_heading(lines[k]@),
                        },
                    rows(out@) == base + all.subrange(i + 1, j as int),
                    section_end(all, i + 1) == section_end(all, j as int),
                decreases n - j,
            {
                let line = copy_chars(&lines[j]);
                proof {
                    lemma_rows_push(out@, line);
                    assert(all[j as int] == lines[j as int]@);
                }
                out.push(line);
                assert(rows(out@) =~= base + all.subrange(i + 1, j + 1));
                j += 1;
            }
            assert(j < n ==> all[j as int] == lines[j as int]@);
            assert(section_end(all, j as int) == j);
            assert(rows(out@) =~= before + section_bodies(all, name@, i + 1));
        }
        i += 1;
    }
}

/// The lines of a manual page in which its options are looked for.
pub fn extract_options_section(text: &str) -> (r: Vec<String>)
    ensures
        texts(r@) == options_section(lines_of(text@)),
{
    let lines = split_lines(&chars_of(text));
    let mut names: Vec<Option<Vec<char>>> = Vec::new();
    let mut i: usize = 0;
    while i < lines.len()
        invariant
            i <= lines.len(),
            names.len() == i,
            forall|k: int|
                0 <= k < i ==> match #[trigger] names[k] {
                    Some(n) => is_heading(lines[k]@) && n@ == trimmed(lines[k]@),
                    None => !is_heading(lines[k]@),
                },
        decreases lines.len() - i,
    {
        names.push(heading_name(&lines[i]));
        i += 1;
    }
    let mut found: Vec<Vec<char>> = Vec::new();
    assert(rows(found@) =~= Seq::<Seq<char>>::empty());
    append_sections(&mut found, &lines, &names, "ALL OPTIONS");
    append_sections(&mut found, &lines, &names, "OPTIONS");
    append_sections(&mut found, &lines, &names, "COMMAND OPTIONS");
    append_sections(&mut found, &lines, &names, "GENERAL OPTIONS");
    append_sections(&mut found, &lines, &names, "GLOBAL OPTIONS");
    append_sections(&mut found, &lines, &names, "COMMON OPTIONS");
    assert(rows(found@) =~= preferred_sections(rows(lines@)));
    if found.len() == 0 {
        append_sections(&mut found, &lines, &names, "DESCRIPTION");
        assert(rows(found@) =~= sections_named(rows(lines@), "DESCRIPTION"@));
    }
    strings_of(&found)
}


/// An option and what is said of it.
pub type OptionEntry = (Seq<char>, Seq<char>);

/// What is known while the lines of a section are read: the entries that
/// are complete, and the option and the lines of description of the entry
/// that is still open.
pub struct OptionScan {
    pub entries: Seq<OptionEntry>,
    pub flags: Option<Seq<char>>,
    pub notes: Seq<Seq<char>>,
}

/// The text of capture group `i`, empty where the group is absent.
pub open spec fn group_or_empty(groups: Seq<Option<Seq<char>>>, i: int) -> Seq<char> {
    if 0 <= i < groups.len() && groups[i] is Some {
        groups[i]->0
    } else {
        Seq::empty()
    }
}

pub open spec fn has_group(groups: Seq<Option<Seq<char>>>, i: int) -> bool {
    0 <= i < groups.len() && groups[i] is Some
}

/// The entries with the open one closed: its option trimmed, its lines of
/// description joined by spaces and trimmed.
pub open spec fn flushed(st: OptionScan) -> Seq<OptionEntry> {
    match st.flags {
        Some(f) => st.entries.push((trimmed(f), trimmed(joined(st.notes, " "@)))),
        None => st.entries,
    }
}

/// What opens with an option line whose text, trimmed, is `raw`: the
/// option up to its argument where `raw` has that form, else all of `raw`.
pub open spec fn opened(entries: Seq<OptionEntry>, raw: Seq<char>) -> OptionScan {
    match regex_captures(pattern_flags(), raw) {
        Some(f) => OptionScan {
            entries,
            flags: Some(group_or_empty(f, 1)),
            notes: if has_group(f, 2) {
                seq![group_or_empty(f, 2)]
            } else {
                Seq::empty()
            },
        },
        None => OptionScan { entries, flags: Some(raw), notes: Seq::empty() },
    }
}

/// What is known after one more line.
pub open spec fn scan_line(st: OptionScan, line: Seq<char>) -> OptionScan {
    match regex_captures(pattern_option_line(), line) {
        Some(g) => opened(flushed(st), trimmed(group_or_empty(g, 2))),
        None => match regex_captures(pattern_description_line(), line) {
            Some(d) => if st.flags is Some {
                OptionScan { notes: st.notes.push(group_or_empty(d, 1)), ..st }
            } else {
                st
            },
            None => st,
        },
    }
}

/// What is known after the first `n` lines.
pub open spec fn scan_lines(lines: Seq<Seq<char>>, n: int) -> OptionScan
    decreases n,
{
    if n <= 0 {
        OptionScan { entries: Seq::empty(), flags: None, notes: Seq::empty() }
    } else {
        scan_line(scan_lines(lines, n - 1), lines[n - 1])
    }
}

/// Whether `c` is one of the signs dropped from the end of an option.
pub open spec fn is_trailing_sign(c: char) -> bool {
    c == '.' || c == ',' || c == ';' || c == ':'
}

/// `s` without the signs at its end.
pub open spec fn canonical(s: Seq<char>) -> Seq<char>
    decreases s.len(),
{
    if s.len() > 0 && is_trailing_sign(s.last()) {
        canonical(s.drop_last())
    } else {
        s
    }
}

pub open spec fn lists_option(entries: Seq<OptionEntry>, flags: Seq<char>) -> bool {
    exists|k: int| 0 <= k < entries.len() && (#[trigger] entries[k]).0 == flags
}

/// The first `n` entries in canonical form, without those whose option is
/// empty or was listed before.
pub open spec fn deduped(entries: Seq<OptionEntry>, n: int) -> Seq<OptionEntry>
    decreases n,
{
    if n <= 0 {
        Seq::empty()
    } else {
        let before = deduped(entries, n - 1);
        let flags = canonical(entries[n - 1].0);
        if flags.len() == 0 || lists_option(before, flags) {
            before
        } else {
            before.push((flags, entries[n - 1].1))
        }
    }
}

/// The options that the lines of a section describe.
pub open spec fn options_of(lines: Seq<Seq<char>>) -> Seq<OptionEntry> {
    let found = flushed(scan_lines(lines, lines.len() as int));
    deduped(found, found.len() as int)
}

fn group_text(groups: &Vec<Option<String>>, i: usize) -> (r: String)
    ensures
        r@ == group_or_empty(group_texts(groups@), i as int),
{
    if i < groups.len() {
        match &groups[i] {
            Some(s) => s.clone(),
            None => String::new(),
        }
    } else {
        String::new()
    }
}

fn flush(entries: &mut Vec<(String, String)>, flags: &Option<String>, notes: &Vec<Vec<char>>)
    ensures
        pair_texts(final(entries)@) == flushed(
            OptionScan {
                entries: pair_texts(old(entries)@),
                flags: crate::text::text_of(*flags),
                notes: rows(notes@),
            },
        ),
{
    match flags {
        Some(f) => {
            let name = trim_str(f.as_str());
            let space = chars_of(" ");
            assert(rows(notes@).skip(0) =~= rows(notes@));
            let said = string_of(&trim(&join_from(notes, 0, &space)));
            proof {
                lemma_pair_texts_push(entries@, name, said);
            }
            entries.push((name, said));
        },
        None => {},
    }
}

fn strip_signs(s: &Vec<char>) -> (r: Vec<char>)
    ensures
        r@ == canonical(s@),
{
    let mut n: usize = s.len();
    assert(s@.take(n as int) =~= s@);
    while n > 0 && (s[n - 1] == '.' || s[n - 1] == ',' || s[n - 1] == ';' || s[n - 1] == ':')
        invariant
            n <= s.len(),
            canonical(s@) == canonical(s@.take(n as int)),
        decreases n,
    {
        assert(s@.take(n as int).drop_last() =~= s@.take(n - 1));
        n -= 1;
    }
    let r = crate::text::slice_chars(s, 0, n);
    assert(s@.subrange(0, n as int) =~= s@.take(n as int));
    r
}

fn listed(entries: &Vec<(String, String)>, flags: &Vec<char>) -> (r: bool)
    ensures
        r == lists_option(pair_texts(entries@), flags@),
{
    let mut k: usize = 0;
    while k < entries.len()
        invariant
            k <= entries.len(),
            forall|j: int| 0 <= j < k ==> (#[trigger] pair_texts(entries@)[j]).0 != flags@,
        decreases entries.len() - k,
    {
        let name = chars_of(entries[k].0.as_str());
        if crate::text::same_chars(&name, flags) {
            assert(pair_texts(entries@)[k as int].0 == flags@);
            return true;
        }
        k += 1;
    }
    false
}

fn dedup(found: &Vec<(String, String)>) -> (r: Vec<(String, String)>)
    ensures
        pair_texts(r@) == deduped(pair_texts(found@), found.len() as int),
{
    let ghost all = pair_texts(found@);
    let mut out: Vec<(String, String)> = Vec::new();
    let mut i: usize = 0;
    assert(pair_texts(out@) =~= deduped(all, 0));
    while i < found.len()
        invariant
            i <= found.len(),
            all == pair_texts(found@),
            pair_texts(out@) == deduped(all, i as int),
        decreases found.len() - i,
    {
        let flags = strip_signs(&chars_of(found[i].0.as_str()));
        assert(all[i as int] == (found[i as int].0@, found[i as int].1@));
        if flags.len() > 0 && !listed(&out, &flags) {
            let name = string_of(&flags);
            let said = found[i].1.clone();
            proof {
                lemma_pair_texts_push(out@, name, said);
            }
            out.push((name, said));
        }
        i += 1;
    }
    out
}

/// Reads the options that the lines of a section describe: an indented
/// line that begins with `-` opens an entry, the lines that begin with a
/// tab under it are its description. An option listed twice is kept once.
pub fn parse_options(section_lines: &Vec<String>) -> (r: Vec<(String, String)>)
    ensures
        pair_texts(r@) == options_of(texts(section_lines@)),
{
    let ghost lines = texts(section_lines@);
    let mut entries: Vec<(String, String)> = Vec::new();
    let mut flags: Option<String> = None;
    let mut notes: Vec<Vec<char>> = Vec::new();
    let mut i: usize = 0;
    assert(pair_texts(entries@) =~= Seq::<OptionEntry>::empty());
    assert(rows(notes@) =~= Seq::<Seq<char>>::empty());
    while i < section_lines.len()
        invariant
            i <= section_lines.len(),
            lines == texts(section_lines@),
            scan_lines(lines, i as int) == (OptionScan {
                entries: pair_texts(entries@),
                flags: crate::text::text_of(flags),
                notes: rows(notes@),
            }),
        decreases section_lines.len() - i,
    {
        let line = section_lines[i].as_str();
        assert(lines[i as int] == line@);
        match captures("^( {4,12})(-.+)$", line) {
            Some(g) => {
                flush(&mut entries, &flags, &notes);
                let raw = trim_str(group_text(&g, 2).as_str());
                match captures("^(-\\w(?:,\\s+--[^\\s]+)?|--[^\\s]+)(?:\\s+(.+))?$", raw.as_str()) {
                    Some(f) => {
                        flags = Some(group_text(&f, 1));
                        notes = Vec::new();
                        if f.len() > 2 && f[2].is_some() {
                            let note = chars_of(group_text(&f, 2).as_str());
                            proof {
                                lemma_rows_push(notes@, note);
                            }
                            notes.push(note);
                            assert(rows(notes@) =~= seq![group_or_empty(group_texts(f@), 2)]);
                        } else {
                            assert(rows(notes@) =~= Seq::<Seq<char>>::empty());
                        }
                    },
                    None => {
                        flags = Some(raw);
                        notes = Vec::new();
                        assert(rows(notes@) =~= Seq::<Seq<char>>::empty());
                    },
                }
            },
            None => match captures("^[\\t][\\t ]*(\\S.*)$", line) {
                Some(d) => {
                    if flags.is_some() {
                        let note = chars_of(group_text(&d, 1).as_str());
                        proof {
                            lemma_rows_push(notes@, note);
                        }
                        notes.push(note);
                    }
                },
                None => {},
            },
        }
        i += 1;
    }
    flush(&mut entries, &flags, &notes);
    dedup(&entries)
}


/// `s` cut to `width` characters, the last of them an ellipsis, where it is longer.
pub open spec fn clipped(s: Seq<char>, width: int) -> Seq<char> {
    if s.len() > width {
        s.take(
            if width >= 1 {
                width - 1
            } else {
                0
            },
        ).push('\u{2026}')
    } else {
        s
    }
}

/// `s` filled with spaces on the right up to `width` characters.
pub open spec fn padded(s: Seq<char>, width: int) -> Seq<char> {
    s + repeated(' ', width - s.len())
}

/// `s` with spaces on both sides up to `width` characters, the odd space
/// on the right.
pub open spec fn centered(s: Seq<char>, width: int) -> Seq<char> {
    if s.len() >= width {
        s
    } else {
        repeated(' ', (width - s.len()) / 2) + s + repeated(
            ' ',
            (width - s.len()) - (width - s.len()) / 2,
        )
    }
}

/// The length of the longest option among the first `n` entries.
pub open spec fn widest_flag(entries: Seq<OptionEntry>, n: int) -> int
    decreases n,
{
    if n <= 0 {
        0
    } else if entries[n - 1].0.len() > widest_flag(entries, n - 1) {
        entries[n - 1].0.len() as int
    } else {
        widest_flag(entries, n - 1)
    }
}

/// The width of the column of options: that of the longest, at most 34.
pub open spec fn flag_width(entries: Seq<OptionEntry>) -> int {
    if widest_flag(entries, entries.len() as int) > 34 {
        34
    } else {
        widest_flag(entries, entries.len() as int)
    }
}

/// The width of the column of descriptions: what the borders and the
/// column of options leave of `max_width`.
pub open spec fn description_width(flags: int, max_width: int) -> int {
    if max_width > flags + 7 {
        max_width - (flags + 7)
    } else {
        0
    }
}

pub open spec fn inner_width(max_width: int) -> int {
    if max_width > 2 {
        max_width - 2
    } else {
        0
    }
}

pub open spec fn title_of(command: Seq<char>) -> Seq<char> {
    "  "@ + command + " options"@
}

pub open spec fn top_line(max_width: int) -> Seq<char> {
    seq!['\u{250c}'] + repeated('\u{2500}', inner_width(max_width)) + seq!['\u{2510}']
}

pub open spec fn title_line(command: Seq<char>, max_width: int) -> Seq<char> {
    seq!['\u{2502}'] + centered(title_of(command), inner_width(max_width)) + seq!['\u{2502}']
}

/// A horizontal rule with a joint between the two columns.
pub open spec fn rule_line(left: char, joint: char, right: char, flags: int, notes: int) -> Seq<
    char,
> {
    seq![left] + repeated('\u{2500}', flags + 2) + seq![joint] + repeated('\u{2500}', notes + 2)
        + seq![right]
}

pub open spec fn entry_line(entry: OptionEntry, flags: int, notes: int) -> Seq<char> {
    seq!['\u{2502}', ' '] + padded(clipped(entry.0, flags), flags) + seq![' ', '\u{2502}', ' ']
        + padded(clipped(entry.1, notes), notes) + seq![' ', '\u{2502}']
}

pub open spec fn entry_lines(entries: Seq<OptionEntry>, flags: int, notes: int) -> Seq<Seq<char>> {
    Seq::new(entries.len(), |i: int| entry_line(entries[i], flags, notes))
}

/// The lines of the table of options of `command`.
pub open spec fn table_lines(command: Seq<char>, entries: Seq<OptionEntry>, max_width: int) -> Seq<
    Seq<char>,
> {
    let flags = flag_width(entries);
    let notes = description_width(flags, max_width);
    seq![
        top_line(max_width),
        title_line(command, max_width),
        rule_line('\u{251c}', '\u{252c}', '\u{2524}', flags, notes),
    ] + entry_lines(entries, flags, notes) + seq![
        rule_line('\u{2514}', '\u{2534}', '\u{2518}', flags, notes),
    ]
}

/// The table of options of `command`, or a sentence where it has none.
pub open spec fn table_text(command: Seq<char>, entries: Seq<OptionEntry>, max_width: int) -> Seq<
    char,
> {
    if entries.len() == 0 {
        "No options found for '"@ + command + "'."@
    } else {
        joined(table_lines(command, entries, max_width), "\n"@)
    }
}

fn extend_clipped_padded(dst: &mut Vec<char>, s: &str, width: usize)
    ensures
        final(dst)@ == old(dst)@ + padded(clipped(s@, width as int), width as int),
{
    let chars = chars_of(s);
    if chars.len() > width {
        let keep: usize = if width >= 1 {
            width - 1
        } else {
            0
        };
        let mut cut = crate::text::slice_chars(&chars, 0, keep);
        cut.push('\u{2026}');
        assert(cut@ =~= clipped(s@, width as int));
        extend_chars(dst, &cut);
        let fill: usize = if width > cut.len() {
            width - cut.len()
        } else {
            0
        };
        extend_repeated(dst, ' ', fill);
        assert(repeated(' ', fill as int) =~= repeated(' ', width - cut@.len()));
        assert(dst@ =~= old(dst)@ + padded(clipped(s@, width as int), width as int));
    } else {
        extend_chars(dst, &chars);
        extend_repeated(dst, ' ', width - chars.len());
        assert(dst@ =~= old(dst)@ + padded(clipped(s@, width as int), width as int));
    }
}

fn rule(left: char, joint: char, right: char, flags: usize, notes: usize) -> (r: Vec<char>)
    requires
        flags + 2 <= usize::MAX,
        notes + 2 <= usize::MAX,
    ensures
        r@ == rule_line(left, joint, right, flags as int, notes as int),
{
    let mut line: Vec<char> = Vec::new();
    line.push(left);
    extend_repeated(&mut line, '\u{2500}', flags + 2);
    line.push(joint);
    extend_repeated(&mut line, '\u{2500}', notes + 2);
    line.push(right);
    assert(line@ =~= rule_line(left, joint, right, flags as int, notes as int));
    line
}

fn column_width(entries: &Vec<(String, String)>) -> (r: usize)
    ensures
        r == flag_width(pair_texts(entries@)),
        r <= 34,
{
    let ghost all = pair_texts(entries@);
    let mut widest: usize = 0;
    let mut i: usize = 0;
    while i < entries.len()
        invariant
            i <= entries.len(),
            all == pair_texts(entries@),
            widest == widest_flag(all, i as int),
        decreases entries.len() - i,
    {
        let w = chars_of(entries[i].0.as_str()).len();
        assert(all[i as int].0 == entries[i as int].0@);
        if w > widest {
            widest = w;
        }
        i += 1;
    }
    if widest > 34 {
        34
    } else {
        widest
    }
}

/// The table of the options of `command`, at most `max_width` wide where
/// the columns fit, or a sentence where there are no options.
pub fn build_table(command: &str, entries: &Vec<(String, String)>, max_width: usize) -> (r: String)
    ensures
        r@ == table_text(command@, pair_texts(entries@), max_width as int),
{
    if entries.len() == 0 {
        let mut line = chars_of("No options found for '");
        extend_str(&mut line, command);
        extend_str(&mut line, "'.");
        return string_of(&line);
    }
    let ghost all = pair_texts(entries@);
    let flags: usize = column_width(entries);
    let notes: usize = if max_width > flags + 7 {
        max_width - (flags + 7)
    } else {
        0
    };
    let inner: usize = if max_width > 2 {
        max_width - 2
    } else {
        0
    };
    let mut lines: Vec<Vec<char>> = Vec::new();

    let mut top: Vec<char> = Vec::new();
    top.push('\u{250c}');
    extend_repeated(&mut top, '\u{2500}', inner);
    top.push('\u{2510}');
    assert(top@ =~= top_line(max_width as int));

    let mut title = chars_of("  ");
    extend_str(&mut title, command);
    extend_str(&mut title, " options");
    let mut second: Vec<char> = Vec::new();
    second.push('\u{2502}');
    if title.len() >= inner {
        extend_chars(&mut second, &title);
    } else {
        let pad: usize = inner - title.len();
        extend_repeated(&mut second, ' ', pad / 2);
        extend_chars(&mut second, &title);
        extend_repeated(&mut second, ' ', pad - pad / 2);
    }
    second.push('\u{2502}');
    assert(second@ =~= title_line(command@, max_width as int));

    let third = rule('\u{251c}', '\u{252c}', '\u{2524}', flags, notes);
    let ghost head = seq![top@, second@, third@];
    lines.push(top);
    lines.push(second);
    lines.push(third);
    assert(rows(lines@) =~= head);

    let mut i: usize = 0;
    while i < entries.len()
        invariant
            i <= entries.len(),
            all == pair_texts(entries@),
            rows(lines@) == head + entry_lines(all, flags as int, notes as int).take(i as int),
        decreases entries.len() - i,
    {
        let mut line: Vec<char> = Vec::new();
        line.push('\u{2502}');
        line.push(' ');
        extend_clipped_padded(&mut line, entries[i].0.as_str(), flags);
        line.push(' ');
        line.push('\u{2502}');
        line.push(' ');
        extend_clipped_padded(&mut line, entries[i].1.as_str(), notes);
        line.push(' ');
        line.push('\u{2502}');
        assert(all[i as int] == (entries[i as int].0@, entries[i as int].1@));
        assert(line@ =~= entry_line(all[i as int], flags as int, notes as int));
        proof {
            lemma_rows_push(lines@, line);
        }
        lines.push(line);
        assert(rows(lines@) =~= head + entry_lines(all, flags as int, notes as int).take(i + 1));
        i += 1;
    }
    let last = rule('\u{2514}', '\u{2534}', '\u{2518}', flags, notes);
    proof {
        lemma_rows_push(lines@, last);
        assert(entry_lines(all, flags as int, notes as int).take(entries.len() as int)
            =~= entry_lines(all, flags as int, notes as int));
    }
    lines.push(last);
    assert(rows(lines@) =~= table_lines(command@, all, max_width as int));
    assert(rows(lines@).skip(0) =~= rows(lines@));
    let feed = chars_of("\n");
    string_of(&join_from(&lines, 0, &feed))
}

/// The lines that the options of a manual page are read from: the
/// sections that list options, or the whole page where it has none.
pub open spec fn option_lines(page: Seq<char>) -> Seq<Seq<char>> {
    if options_section(lines_of(page)).len() == 0 {
        lines_of(page)
    } else {
        options_section(lines_of(page))
    }
}

/// The table of options that a manual page gives, if it describes any.
pub open spec fn manopt_of(base_command: Seq<char>, page: Seq<char>, max_width: int) -> Option<
    Seq<char>,
> {
    if options_of(option_lines(page)).len() == 0 {
        None
    } else {
        Some(table_text(base_command, options_of(option_lines(page)), max_width))
    }
}

/// The options of `base_command` as a table, read from the text of its
/// manual page; `None` where the page describes no option.
pub fn parse_manopt(base_command: &str, man_text: &str, max_width: usize) -> (r: Option<String>)
    ensures
        text_of(r) == manopt_of(base_command@, man_text@, max_width as int),
{
    let section = extract_options_section(man_text);
    let lines = if section.len() == 0 {
        strings_of(&split_lines(&chars_of(man_text)))
    } else {
        section
    };
    let entries = parse_options(&lines);
    if entries.len() == 0 {
        None
    } else {
        Some(build_table(base_command, &entries, max_width))
    }
}


/// The rows without those of the program `base`.
pub open spec fn without_program(rows: Seq<ManoptText>, base: Seq<char>) -> Seq<ManoptText>
    decreases rows.len(),
{
    if rows.len() == 0 {
        Seq::empty()
    } else if rows.last().base_command == base {
        without_program(rows.drop_last(), base)
    } else {
        without_program(rows.drop_last(), base).push(rows.last())
    }
}

/// The rows after the table of a program was put on record: the new
/// row takes the place of any older one of the same program.
pub open spec fn cached_rows(
    rows: Seq<ManoptText>,
    base: Seq<char>,
    options: Seq<char>,
    now_iso: Seq<char>,
) -> Seq<ManoptText> {
    without_program(rows, base).push(
        ManoptText { base_command: base, options_text: options, created_at: now_iso },
    )
}

pub proof fn lemma_without_program(rows: Seq<ManoptText>, base: Seq<char>, other: Seq<char>)
    ensures
        cached_options(without_program(rows, base), base) is None,
        other != base ==> cached_options(without_program(rows, base), other) == cached_options(
            rows,
            other,
        ),
    decreases rows.len(),
{
    if rows.len() > 0 {
        lemma_without_program(rows.drop_last(), base, other);
        if rows.last().base_command != base {
            let kept = without_program(rows.drop_last(), base).push(rows.last());
            assert(kept.drop_last() =~= without_program(rows.drop_last(), base));
            assert(kept.last() == rows.last());
        }
    }
}

/// What is put on record for a program is what is found for it
/// afterwards, and what is on record for other programs stays.
pub proof fn lemma_cached_rows(
    rows: Seq<ManoptText>,
    base: Seq<char>,
    options: Seq<char>,
    now_iso: Seq<char>,
    other: Seq<char>,
)
    ensures
        cached_options(cached_rows(rows, base, options, now_iso), base) == Some(options),
        other != base ==> cached_options(cached_rows(rows, base, options, now_iso), other)
            == cached_options(rows, other),
{
    lemma_without_program(rows, base, other);
    let after = cached_rows(rows, base, options, now_iso);
    assert(after.drop_last() =~= without_program(rows, base));
}

/// Puts the table of options of a program on record, at the time `now_iso`.
pub fn cache_at(store: &mut Store, base_command: &str, options_text: &str, now_iso: &str)
    ensures
        final(store)@ == (StoreText {
            manopt_cache: cached_rows(
                old(store)@.manopt_cache,
                base_command@,
                options_text@,
                now_iso@,
            ),
            ..old(store)@
        }),
{
    let wanted = chars_of(base_command);
    let ghost all = store@.manopt_cache;
    let ghost before = store@;
    let mut kept: Vec<ManoptEntry> = Vec::new();
    let mut i: usize = 0;
    assert(manopt_texts(kept@) =~= without_program(all.take(0), base_command@));
    while i < store.manopt_cache.len()
        invariant
            i <= store.manopt_cache.len(),
            wanted@ == base_command@,
            store@ == before,
            all == before.manopt_cache,
            manopt_texts(kept@) == without_program(all.take(i as int), base_command@),
        decreases store.manopt_cache.len() - i,
    {
        assert(all.take(i + 1).drop_last() =~= all.take(i as int));
        assert(all.take(i + 1).last() == store.manopt_cache@[i as int]@);
        let row = &store.manopt_cache[i];
        if !crate::text::same_chars(&chars_of(row.base_command.as_str()), &wanted) {
            let copy = ManoptEntry {
                base_command: row.base_command.clone(),
                options_text: row.options_text.clone(),
                created_at: row.created_at.clone(),
            };
            let ghost sofar = manopt_texts(kept@);
            kept.push(copy);
            assert(manopt_texts(kept@) =~= sofar.push(copy@));
        }
        i += 1;
    }
    assert(all.take(store.manopt_cache.len() as int) =~= all);
    let added = ManoptEntry {
        base_command: base_command.to_owned(),
        options_text: options_text.to_owned(),
        created_at: now_iso.to_owned(),
    };
    let ghost sofar = manopt_texts(kept@);
    kept.push(added);
    assert(manopt_texts(kept@) =~= sofar.push(added@));
    store.manopt_cache = kept;
}

/// Reads the options of a program from the text of its manual page and
/// puts the table on record, at the time the clock shows. Returns the
/// table; `None`, and nothing on record, where the page describes no option.
pub fn run_and_cache(store: &mut Store, base_command: &str, man_text: &str) -> (r: Option<String>)
    ensures
        text_of(r) == manopt_of(base_command@, man_text@, 120),
        match r {
            Some(table) => exists|now_iso: Seq<char>|
                final(store)@ == (StoreText {
                    manopt_cache: #[trigger] cached_rows(
                        old(store)@.manopt_cache,
                        base_command@,
                        table@,
                        now_iso,
                    ),
                    ..old(store)@
                }),
            None => final(store)@ == old(store)@,
        },
{
    match parse_manopt(base_command, man_text, 120) {
        Some(table) => {
            let now_iso = now_rfc3339();
            cache_at(store, base_command, table.as_str(), now_iso.as_str());
            Some(table)
        },
        None => None,
    }
}

/// The table of options on record for a program.
pub fn get_cached(store: &Store, base_command: &str) -> (r: Option<String>)
    ensures
        text_of(r) == cached_options(store@.manopt_cache, base_command@),
{
    store.get_cached_manopt(base_command)
}

} // verus!
