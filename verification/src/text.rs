use vstd::prelude::*;
use vstd::utf8::{encode_scalar, encode_utf8};

verus! {

/// Appends one character. `String::push` has no specification in vstd;
/// the contract claims that the string's characters afterwards are the
/// old ones followed by `c`.
#[verifier::external_body]
pub(crate) fn push_char(s: &mut String, c: char)
    ensures
        final(s)@ == old(s)@.push(c),
{
    s.push(c)
}

/// The characters of `s`, in order.
pub fn chars_of(s: &str) -> (r: Vec<char>)
    ensures
        r@ == s@,
{
    let mut out: Vec<char> = Vec::new();
    for c in it: s.chars()
        invariant
            out@ == it.seq().take(it.index@),
            it.seq() == s@,
    {
        out.push(c);
    }
    out
}

/// The string made of the characters of `v`, in order.
pub fn string_of(v: &Vec<char>) -> (r: String)
    ensures
        r@ == v@,
{
    let mut out = String::new();
    let mut i: usize = 0;
    while i < v.len()
        invariant
            i <= v.len(),
            out@ == v@.take(i as int),
        decreases v.len() - i,
    {
        push_char(&mut out, v[i]);
        assert(v@.take(i as int).push(v@[i as int]) =~= v@.take(i + 1));
        i += 1;
    }
    assert(v@.take(v.len() as int) =~= v@);
    out
}


/// Whether a character beyond ASCII counts as white space. This names
/// what `char::is_whitespace` returns there; std documents it as the
/// Unicode property White_Space.
pub uninterp spec fn wide_space(c: char) -> bool;

/// Whether `c` counts as white space. In ASCII these are the space and
/// the characters from the horizontal tab to the carriage return.
pub open spec fn white_space(c: char) -> bool {
    if (c as u32) < 128 {
        c == ' ' || 9 <= (c as u32) <= 13
    } else {
        wide_space(c)
    }
}

/// Calls `char::is_whitespace`. The contract states the answer for ASCII
/// and gives the answer its name beyond.
#[verifier::external_body]
pub(crate) fn is_space(c: char) -> (r: bool)
    ensures
        r == white_space(c),
        (c as u32) >= 128 ==> r == wide_space(c),
{
    c.is_whitespace()
}

/// How many characters at the front of `s` are white space.
pub open spec fn lead_space(s: Seq<char>) -> nat
    decreases s.len(),
{
    if s.len() > 0 && white_space(s[0]) {
        1 + lead_space(s.drop_first())
    } else {
        0
    }
}

/// How many characters at the back of `s` are white space.
pub open spec fn trail_space(s: Seq<char>) -> nat
    decreases s.len(),
{
    if s.len() > 0 && white_space(s.last()) {
        1 + trail_space(s.drop_last())
    } else {
        0
    }
}

/// `s` without its leading and trailing white space.
pub open spec fn trimmed(s: Seq<char>) -> Seq<char> {
    if lead_space(s) >= s.len() {
        Seq::empty()
    } else {
        s.subrange(lead_space(s) as int, s.len() - trail_space(s))
    }
}

/// A prefix of white space followed by a character that is none pins `lead_space`.
pub proof fn lemma_lead_space_is(s: Seq<char>, n: int)
    requires
        0 <= n <= s.len(),
        forall|i: int| 0 <= i < n ==> white_space(#[trigger] s[i]),
        n < s.len() ==> !white_space(s[n]),
    ensures
        lead_space(s) == n,
    decreases n,
{
    if n > 0 {
        let t = s.drop_first();
        assert forall|i: int| 0 <= i < n - 1 implies white_space(#[trigger] t[i]) by {
            assert(t[i] == s[i + 1]);
        }
        lemma_lead_space_is(t, n - 1);
    }
}

/// A suffix of white space preceded by a character that is none pins `trail_space`.
pub proof fn lemma_trail_space_is(s: Seq<char>, n: int)
    requires
        0 <= n <= s.len(),
        forall|i: int| s.len() - n <= i < s.len() ==> white_space(#[trigger] s[i]),
        n < s.len() ==> !white_space(s[s.len() - n - 1]),
    ensures
        trail_space(s) == n,
    decreases n,
{
    if n > 0 {
        let t = s.drop_last();
        assert forall|i: int| t.len() - (n - 1) <= i < t.len() implies white_space(
            #[trigger] t[i],
        ) by {
            assert(t[i] == s[i]);
        }
        lemma_trail_space_is(t, n - 1);
    }
}

/// The characters of `v` from `from` up to, not including, `to`.
pub fn slice_chars(v: &Vec<char>, from: usize, to: usize) -> (r: Vec<char>)
    requires
        from <= to <= v.len(),
    ensures
        r@ == v@.subrange(from as int, to as int),
{
    let mut out: Vec<char> = Vec::new();
    let mut i: usize = from;
    while i < to
        invariant
            from <= i <= to <= v.len(),
            out@ == v@.subrange(from as int, i as int),
        decreases to - i,
    {
        out.push(v[i]);
        assert(v@.subrange(from as int, i as int).push(v@[i as int]) =~= v@.subrange(
            from as int,
            i + 1,
        ));
        i += 1;
    }
    out
}

/// Removes leading and trailing white space.
pub fn trim(v: &Vec<char>) -> (r: Vec<char>)
    ensures
        r@ == trimmed(v@),
{
    let n: usize = v.len();
    let mut a: usize = 0;
    while a < n && is_space(v[a])
        invariant
            a <= n == v.len(),
            forall|i: int| 0 <= i < a ==> white_space(#[trigger] v@[i]),
        decreases n - a,
    {
        a += 1;
    }
    proof {
        lemma_lead_space_is(v@, a as int);
    }
    if a == n {
        return Vec::new();
    }
    let mut b: usize = n;
    while b > a && is_space(v[b - 1])
        invariant
            a < n == v.len(),
            a <= b <= n,
            !white_space(v@[a as int]),
            forall|i: int| b <= i < n ==> white_space(#[trigger] v@[i]),
        decreases b,
    {
        b -= 1;
    }
    proof {
        lemma_trail_space_is(v@, n - b);
    }
    slice_chars(v, a, b)
}


/// The character sequences held by a vector of strings.
pub open spec fn texts(v: Seq<String>) -> Seq<Seq<char>> {
    Seq::new(v.len(), |i: int| v[i]@)
}

pub proof fn lemma_texts_push(v: Seq<String>, s: String)
    ensures
        texts(v.push(s)) == texts(v).push(s@),
{
    assert(texts(v.push(s)) =~= texts(v).push(s@));
}


/// The character sequences held by a vector of character vectors.
pub open spec fn rows(v: Seq<Vec<char>>) -> Seq<Seq<char>> {
    Seq::new(v.len(), |i: int| v[i]@)
}

pub proof fn lemma_rows_push(v: Seq<Vec<char>>, s: Vec<char>)
    ensures
        rows(v.push(s)) == rows(v).push(s@),
{
    assert(rows(v.push(s)) =~= rows(v).push(s@));
}

/// Where the run of characters that are no white space, ending at `n`, begins.
pub open spec fn word_start(s: Seq<char>, n: int) -> int
    decreases n,
{
    if n <= 0 {
        0
    } else if white_space(s[n - 1]) {
        n
    } else {
        word_start(s, n - 1)
    }
}

/// `acc` with `w` added, unless `w` is empty.
pub open spec fn with_word(acc: Seq<Seq<char>>, w: Seq<char>) -> Seq<Seq<char>> {
    if w.len() == 0 {
        acc
    } else {
        acc.push(w)
    }
}

/// The words among the first `n` characters that a white space has ended.
pub open spec fn words_upto(s: Seq<char>, n: int) -> Seq<Seq<char>>
    decreases n,
{
    if n <= 0 {
        Seq::empty()
    } else if white_space(s[n - 1]) {
        with_word(words_upto(s, n - 1), s.subrange(word_start(s, n - 1), n - 1))
    } else {
        words_upto(s, n - 1)
    }
}

/// The maximal runs of characters of `s` that are no white space, in order.
pub open spec fn words_of(s: Seq<char>) -> Seq<Seq<char>> {
    with_word(
        words_upto(s, s.len() as int),
        s.subrange(word_start(s, s.len() as int), s.len() as int),
    )
}

/// Splits at white space; no word is empty.
pub fn split_words(v: &Vec<char>) -> (r: Vec<Vec<char>>)
    ensures
        rows(r@) == words_of(v@),
{
    let n: usize = v.len();
    let mut words: Vec<Vec<char>> = Vec::new();
    let mut start: usize = 0;
    let mut i: usize = 0;
    assert(rows(words@) =~= words_upto(v@, 0));
    while i < n
        invariant
            i <= n == v.len(),
            start == word_start(v@, i as int),
            start <= i,
            rows(words@) == words_upto(v@, i as int),
        decreases n - i,
    {
        if is_space(v[i]) {
            if start < i {
                let w = slice_chars(v, start, i);
                proof {
                    lemma_rows_push(words@, w);
                }
                words.push(w);
            }
            start = i + 1;
        }
        i += 1;
    }
    if start < n {
        let w = slice_chars(v, start, n);
        proof {
            lemma_rows_push(words@, w);
        }
        words.push(w);
    }
    words
}

/// The parts of `parts` written one after another with `sep` between them.
pub open spec fn joined(parts: Seq<Seq<char>>, sep: Seq<char>) -> Seq<char>
    decreases parts.len(),
{
    if parts.len() == 0 {
        Seq::empty()
    } else if parts.len() == 1 {
        parts[0]
    } else {
        joined(parts.drop_last(), sep) + sep + parts.last()
    }
}

/// Appends the characters of `src` to `dst`.
pub fn extend_chars(dst: &mut Vec<char>, src: &Vec<char>)
    ensures
        final(dst)@ == old(dst)@ + src@,
{
    let mut i: usize = 0;
    while i < src.len()
        invariant
            i <= src.len(),
            dst@ == old(dst)@ + src@.take(i as int),
        decreases src.len() - i,
    {
        dst.push(src[i]);
        assert(src@.take(i as int).push(src@[i as int]) =~= src@.take(i + 1));
        assert(dst@ =~= old(dst)@ + src@.take(i + 1));
        i += 1;
    }
    assert(src@.take(src.len() as int) =~= src@);
}

/// Appends the characters of `src` to `dst`.
pub fn extend_str(dst: &mut Vec<char>, src: &str)
    ensures
        final(dst)@ == old(dst)@ + src@,
{
    let v = chars_of(src);
    extend_chars(dst, &v);
}

/// Writes the parts from `from` on one after another, with `sep` between them.
pub fn join_from(parts: &Vec<Vec<char>>, from: usize, sep: &Vec<char>) -> (r: Vec<char>)
    requires
        from <= parts.len(),
    ensures
        r@ == joined(rows(parts@).skip(from as int), sep@),
{
    let ghost all = rows(parts@).skip(from as int);
    let mut out: Vec<char> = Vec::new();
    let mut i: usize = from;
    assert(all.take(0) =~= Seq::<Seq<char>>::empty());
    while i < parts.len()
        invariant
            from <= i <= parts.len(),
            all == rows(parts@).skip(from as int),
            out@ == joined(all.take(i - from), sep@),
        decreases parts.len() - i,
    {
        let ghost before = all.take(i - from);
        let ghost after = all.take(i - from + 1);
        assert(after.drop_last() =~= before);
        assert(after.last() == parts@[i as int]@);
        if i > from {
            extend_chars(&mut out, sep);
        }
        extend_chars(&mut out, &parts[i]);
        assert(out@ =~= joined(after, sep@));
        i += 1;
    }
    assert(all.take(parts.len() - from) =~= all);
    out
}


/// Whether two character vectors hold the same characters.
pub fn same_chars(a: &Vec<char>, b: &Vec<char>) -> (r: bool)
    ensures
        r == (a@ == b@),
{
    if a.len() != b.len() {
        return false;
    }
    let mut i: usize = 0;
    while i < a.len()
        invariant
            i <= a.len() == b.len(),
            a@.take(i as int) == b@.take(i as int),
        decreases a.len() - i,
    {
        if a[i] != b[i] {
            return false;
        }
        assert(a@.take(i + 1) =~= a@.take(i as int).push(a@[i as int]));
        assert(b@.take(i + 1) =~= b@.take(i as int).push(b@[i as int]));
        i += 1;
    }
    assert(a@.take(a.len() as int) =~= a@);
    assert(b@.take(b.len() as int) =~= b@);
    true
}

/// Whether `a` spells `word`.
pub fn is_text(a: &Vec<char>, word: &str) -> (r: bool)
    ensures
        r == (a@ == word@),
{
    let w = chars_of(word);
    same_chars(a, &w)
}

/// Whether `s` begins with `c`.
pub open spec fn starts_with(s: Seq<char>, c: char) -> bool {
    s.len() > 0 && s[0] == c
}

pub fn begins_with(a: &Vec<char>, c: char) -> (r: bool)
    ensures
        r == starts_with(a@, c),
{
    a.len() > 0 && a[0] == c
}

/// The last position of `c` in `s`, or -1 where `s` holds none.
pub open spec fn last_index_of(s: Seq<char>, c: char) -> int
    decreases s.len(),
{
    if s.len() == 0 {
        -1
    } else if s.last() == c {
        s.len() - 1
    } else {
        last_index_of(s.drop_last(), c)
    }
}

pub proof fn lemma_last_index_of_bounds(s: Seq<char>, c: char)
    ensures
        -1 <= last_index_of(s, c) < s.len(),
    decreases s.len(),
{
    if s.len() > 0 && s.last() != c {
        lemma_last_index_of_bounds(s.drop_last(), c);
    }
}

pub fn find_last(a: &Vec<char>, c: char) -> (r: Option<usize>)
    ensures
        match r {
            Some(i) => i == last_index_of(a@, c) && i < a.len(),
            None => last_index_of(a@, c) == -1,
        },
{
    proof {
        lemma_last_index_of_bounds(a@, c);
    }
    let mut n: usize = a.len();
    assert(a@.take(n as int) =~= a@);
    while n > 0
        invariant
            n <= a.len(),
            last_index_of(a@, c) == last_index_of(a@.take(n as int), c),
        decreases n,
    {
        if a[n - 1] == c {
            return Some(n - 1);
        }
        assert(a@.take(n as int).drop_last() =~= a@.take(n - 1));
        n -= 1;
    }
    None
}


/// The character for the decimal digit `d`.
pub open spec fn digit_char(d: int) -> char {
    if d == 0 {
        '0'
    } else if d == 1 {
        '1'
    } else if d == 2 {
        '2'
    } else if d == 3 {
        '3'
    } else if d == 4 {
        '4'
    } else if d == 5 {
        '5'
    } else if d == 6 {
        '6'
    } else if d == 7 {
        '7'
    } else if d == 8 {
        '8'
    } else {
        '9'
    }
}

/// A natural number in decimal, without leading zeros.
pub open spec fn decimal_nat(n: nat) -> Seq<char>
    decreases n,
{
    if n < 10 {
        seq![digit_char(n as int)]
    } else {
        decimal_nat(n / 10).push(digit_char((n % 10) as int))
    }
}

/// An integer in decimal, with `-` before a negative one.
pub open spec fn decimal(n: int) -> Seq<char> {
    if n < 0 {
        seq!['-'] + decimal_nat((-n) as nat)
    } else {
        decimal_nat(n as nat)
    }
}

pub fn digit_of(d: u64) -> (c: char)
    requires
        d < 10,
    ensures
        c == digit_char(d as int),
{
    if d == 0 {
        '0'
    } else if d == 1 {
        '1'
    } else if d == 2 {
        '2'
    } else if d == 3 {
        '3'
    } else if d == 4 {
        '4'
    } else if d == 5 {
        '5'
    } else if d == 6 {
        '6'
    } else if d == 7 {
        '7'
    } else if d == 8 {
        '8'
    } else {
        '9'
    }
}

/// Writes `n` in decimal.
pub fn decimal_u64(n: u64) -> (r: Vec<char>)
    ensures
        r@ == decimal_nat(n as nat),
    decreases n,
{
    if n < 10 {
        let mut v: Vec<char> = Vec::new();
        v.push(digit_of(n));
        assert(v@ =~= seq![digit_char(n as int)]);
        v
    } else {
        let mut v = decimal_u64(n / 10);
        v.push(digit_of(n % 10));
        v
    }
}

/// Writes `n` in decimal.
pub fn decimal_i64(n: i64) -> (r: Vec<char>)
    ensures
        r@ == decimal(n as int),
{
    if n < 0 {
        let m: u64 = ((-(n + 1)) as u64) + 1;
        let mut v: Vec<char> = Vec::new();
        v.push('-');
        let digits = decimal_u64(m);
        extend_chars(&mut v, &digits);
        assert(v@ =~= seq!['-'] + decimal_nat((-n) as nat));
        v
    } else {
        decimal_u64(n as u64)
    }
}

/// Appends `n` in decimal to `dst`.
pub fn extend_decimal(dst: &mut Vec<char>, n: i64)
    ensures
        final(dst)@ == old(dst)@ + decimal(n as int),
{
    let digits = decimal_i64(n);
    extend_chars(dst, &digits);
}


/// Appends `n` in decimal to `dst`.
pub fn extend_unsigned(dst: &mut Vec<char>, n: u64)
    ensures
        final(dst)@ == old(dst)@ + decimal(n as int),
{
    let digits = decimal_u64(n);
    extend_chars(dst, &digits);
}


/// The text of a string that may be absent.
pub open spec fn text_of(s: Option<String>) -> Option<Seq<char>> {
    match s {
        Some(t) => Some(t@),
        None => None,
    }
}


/// The value of a decimal digit, or -1 for any other character.
pub open spec fn digit_value(c: char) -> int {
    if c == '0' {
        0
    } else if c == '1' {
        1
    } else if c == '2' {
        2
    } else if c == '3' {
        3
    } else if c == '4' {
        4
    } else if c == '5' {
        5
    } else if c == '6' {
        6
    } else if c == '7' {
        7
    } else if c == '8' {
        8
    } else if c == '9' {
        9
    } else {
        -1
    }
}

/// Whether every character of `s` is a decimal digit.
pub open spec fn all_digits(s: Seq<char>) -> bool {
    forall|i: int| 0 <= i < s.len() ==> digit_value(#[trigger] s[i]) >= 0
}

/// The number that the digits of `s` write in decimal.
pub open spec fn digits_value(s: Seq<char>) -> int
    decreases s.len(),
{
    if s.len() == 0 {
        0
    } else {
        digits_value(s.drop_last()) * 10 + digit_value(s.last())
    }
}

/// The number written by an unsigned decimal numeral of at least one
/// digit, where it is at most `limit`.
pub open spec fn numeral_value(s: Seq<char>, limit: int) -> Option<int> {
    if s.len() > 0 && all_digits(s) && digits_value(s) <= limit {
        Some(digits_value(s))
    } else {
        None
    }
}

/// The number written by `s`: an optional `+`, then digits. `None` where
/// `s` is not of that form or the number does not fit.
pub open spec fn parsed_u64(s: Seq<char>) -> Option<int> {
    if starts_with(s, '+') {
        numeral_value(s.skip(1), u64::MAX as int)
    } else {
        numeral_value(s, u64::MAX as int)
    }
}

/// The number written by `s`: an optional `+` or `-`, then digits. `None`
/// where `s` is not of that form or the number does not fit.
pub open spec fn parsed_i32(s: Seq<char>) -> Option<int> {
    if starts_with(s, '-') {
        match numeral_value(s.skip(1), 0x8000_0000) {
            Some(v) => Some(-v),
            None => None,
        }
    } else if starts_with(s, '+') {
        numeral_value(s.skip(1), 0x7fff_ffff)
    } else {
        numeral_value(s, 0x7fff_ffff)
    }
}

pub proof fn lemma_digits_value_grows(s: Seq<char>, k: int)
    requires
        all_digits(s),
        0 <= k <= s.len(),
    ensures
        0 <= digits_value(s.take(k)) <= digits_value(s),
    decreases s.len() - k,
{
    if k == s.len() {
        assert(s.take(k) =~= s);
        lemma_digits_value_nonnegative(s);
    } else {
        lemma_digits_value_grows(s, k + 1);
        assert(s.take(k + 1).drop_last() =~= s.take(k));
        assert(s.take(k + 1).last() == s[k]);
        lemma_digits_value_nonnegative(s.take(k));
    }
}

pub proof fn lemma_digits_value_nonnegative(s: Seq<char>)
    requires
        all_digits(s),
    ensures
        0 <= digits_value(s),
    decreases s.len(),
{
    if s.len() > 0 {
        assert forall|i: int| 0 <= i < s.drop_last().len() implies digit_value(
            #[trigger] s.drop_last()[i],
        ) >= 0 by {
            assert(s.drop_last()[i] == s[i]);
        }
        lemma_digits_value_nonnegative(s.drop_last());
    }
}

fn value_of_digit(c: char) -> (r: Option<u64>)
    ensures
        match r {
            Some(d) => d == digit_value(c) && d < 10,
            None => digit_value(c) == -1,
        },
{
    if c == '0' {
        Some(0)
    } else if c == '1' {
        Some(1)
    } else if c == '2' {
        Some(2)
    } else if c == '3' {
        Some(3)
    } else if c == '4' {
        Some(4)
    } else if c == '5' {
        Some(5)
    } else if c == '6' {
        Some(6)
    } else if c == '7' {
        Some(7)
    } else if c == '8' {
        Some(8)
    } else if c == '9' {
        Some(9)
    } else {
        None
    }
}

/// Reads the characters of `v` from `from` on as an unsigned decimal
/// numeral that is at most `limit`.
pub fn parse_numeral(v: &Vec<char>, from: usize, limit: u64) -> (r: Option<u64>)
    requires
        from <= v.len(),
    ensures
        match r {
            Some(n) => numeral_value(v@.skip(from as int), limit as int) == Some(n as int),
            None => numeral_value(v@.skip(from as int), limit as int) is None,
        },
{
    let ghost s = v@.skip(from as int);
    if from == v.len() {
        return None;
    }
    let mut acc: u64 = 0;
    let mut i: usize = from;
    assert(s.take(0) =~= Seq::<char>::empty());
    while i < v.len()
        invariant
            from <= i <= v.len(),
            s == v@.skip(from as int),
            all_digits(s.take(i - from)),
            acc == digits_value(s.take(i - from)),
            acc <= limit,
        decreases v.len() - i,
    {
        let ghost before = s.take(i - from);
        let ghost after = s.take(i - from + 1);
        assert(after.drop_last() =~= before);
        assert(after.last() == v@[i as int]);
        match value_of_digit(v[i]) {
            None => {
                assert(digit_value(s[i - from]) == -1);
                return None;
            },
            Some(d) => {
                assert forall|j: int| 0 <= j < after.len() implies digit_value(
                    #[trigger] after[j],
                ) >= 0 by {
                    if j < before.len() {
                        assert(after[j] == before[j]);
                    }
                }
                if d > limit || acc > (limit - d) / 10 {
                    proof {
                        assert(digits_value(after) > limit);
                        if all_digits(s) {
                            lemma_digits_value_grows(s, i - from + 1);
                        }
                    }
                    return None;
                }
                acc = acc * 10 + d;
            },
        }
        i += 1;
    }
    assert(s.take(v.len() - from) =~= s);
    Some(acc)
}

/// Reads an unsigned decimal number.
pub fn parse_u64(v: &Vec<char>) -> (r: Option<u64>)
    ensures
        match r {
            Some(n) => parsed_u64(v@) == Some(n as int),
            None => parsed_u64(v@) is None,
        },
{
    if begins_with(v, '+') {
        parse_numeral(v, 1, 0xffff_ffff_ffff_ffff)
    } else {
        assert(v@.skip(0) =~= v@);
        parse_numeral(v, 0, 0xffff_ffff_ffff_ffff)
    }
}

/// Reads a signed decimal number.
pub fn parse_i32(v: &Vec<char>) -> (r: Option<i32>)
    ensures
        match r {
            Some(n) => parsed_i32(v@) == Some(n as int),
            None => parsed_i32(v@) is None,
        },
{
    if begins_with(v, '-') {
        match parse_numeral(v, 1, 0x8000_0000) {
            Some(n) => Some((-(n as i64)) as i32),
            None => None,
        }
    } else if begins_with(v, '+') {
        match parse_numeral(v, 1, 0x7fff_ffff) {
            Some(n) => Some(n as i32),
            None => None,
        }
    } else {
        assert(v@.skip(0) =~= v@);
        match parse_numeral(v, 0, 0x7fff_ffff) {
            Some(n) => Some(n as i32),
            None => None,
        }
    }
}


/// The texts held by a vector of pairs of strings.
pub open spec fn pair_texts(v: Seq<(String, String)>) -> Seq<(Seq<char>, Seq<char>)> {
    Seq::new(v.len(), |i: int| (v[i].0@, v[i].1@))
}

pub proof fn lemma_pair_texts_push(v: Seq<(String, String)>, a: String, b: String)
    ensures
        pair_texts(v.push((a, b))) == pair_texts(v).push((a@, b@)),
{
    assert(pair_texts(v.push((a, b))) =~= pair_texts(v).push((a@, b@)));
}

/// Where the line that is still open after `n` characters begins.
pub open spec fn line_start(s: Seq<char>, n: int) -> int
    decreases n,
{
    if n <= 0 {
        0
    } else if s[n - 1] == '\n' {
        n
    } else {
        line_start(s, n - 1)
    }
}

/// `line` without a carriage return at its end.
pub open spec fn without_return(line: Seq<char>) -> Seq<char> {
    if line.len() > 0 && line.last() == '\r' {
        line.drop_last()
    } else {
        line
    }
}

/// The lines among the first `n` characters that a line feed has ended.
pub open spec fn lines_upto(s: Seq<char>, n: int) -> Seq<Seq<char>>
    decreases n,
{
    if n <= 0 {
        Seq::empty()
    } else if s[n - 1] == '\n' {
        lines_upto(s, n - 1).push(without_return(s.subrange(line_start(s, n - 1), n - 1)))
    } else {
        lines_upto(s, n - 1)
    }
}

/// The lines of a text. A line ends with a line feed, or a carriage return
/// and a line feed, which are not part of it; what follows the last line
/// feed is a line if it is not empty.
pub open spec fn lines_of(s: Seq<char>) -> Seq<Seq<char>> {
    let rest = s.subrange(line_start(s, s.len() as int), s.len() as int);
    if rest.len() == 0 {
        lines_upto(s, s.len() as int)
    } else {
        lines_upto(s, s.len() as int).push(rest)
    }
}

/// Splits a text into its lines.
pub fn split_lines(v: &Vec<char>) -> (r: Vec<Vec<char>>)
    ensures
        rows(r@) == lines_of(v@),
{
    let n: usize = v.len();
    let mut lines: Vec<Vec<char>> = Vec::new();
    let mut start: usize = 0;
    let mut i: usize = 0;
    assert(rows(lines@) =~= lines_upto(v@, 0));
    while i < n
        invariant
            i <= n == v.len(),
            start == line_start(v@, i as int),
            start <= i,
            rows(lines@) == lines_upto(v@, i as int),
        decreases n - i,
    {
        if v[i] == '\n' {
            let end: usize = if i > start && v[i - 1] == '\r' {
                i - 1
            } else {
                i
            };
            let line = slice_chars(v, start, end);
            assert(line@ =~= without_return(v@.subrange(start as int, i as int)));
            proof {
                lemma_rows_push(lines@, line);
            }
            lines.push(line);
            start = i + 1;
        }
        i += 1;
    }
    if start < n {
        let line = slice_chars(v, start, n);
        proof {
            lemma_rows_push(lines@, line);
        }
        lines.push(line);
    }
    lines
}

/// `n` times the character `c`.
pub open spec fn repeated(c: char, n: int) -> Seq<char> {
    Seq::new(
        if n < 0 {
            0
        } else {
            n as nat
        },
        |i: int| c,
    )
}

/// Appends `n` times the character `c`.
pub fn extend_repeated(dst: &mut Vec<char>, c: char, n: usize)
    ensures
        final(dst)@ == old(dst)@ + repeated(c, n as int),
{
    let mut i: usize = 0;
    assert(dst@ =~= old(dst)@ + repeated(c, 0));
    while i < n
        invariant
            i <= n,
            dst@ == old(dst)@ + repeated(c, i as int),
        decreases n - i,
    {
        dst.push(c);
        assert(dst@ =~= old(dst)@ + repeated(c, i + 1));
        i += 1;
    }
}


/// The strings that spell the rows of `v`.
pub fn strings_of(v: &Vec<Vec<char>>) -> (r: Vec<String>)
    ensures
        texts(r@) == rows(v@),
{
    let mut out: Vec<String> = Vec::new();
    let mut i: usize = 0;
    assert(texts(out@) =~= rows(v@).take(0));
    while i < v.len()
        invariant
            i <= v.len(),
            texts(out@) == rows(v@).take(i as int),
        decreases v.len() - i,
    {
        let s = string_of(&v[i]);
        proof {
            lemma_texts_push(out@, s);
        }
        out.push(s);
        assert(texts(out@) =~= rows(v@).take(i + 1));
        i += 1;
    }
    assert(rows(v@).take(v.len() as int) =~= rows(v@));
    out
}

/// `s` without its leading and trailing white space.
pub fn trim_str(s: &str) -> (r: String)
    ensures
        r@ == trimmed(s@),
{
    string_of(&trim(&chars_of(s)))
}


/// A copy of `v`.
pub fn copy_chars(v: &Vec<char>) -> (r: Vec<char>)
    ensures
        r@ == v@,
{
    let r = slice_chars(v, 0, v.len());
    assert(v@.subrange(0, v.len() as int) =~= v@);
    r
}


/// Appends copies of the rows of `src` to `dst`.
pub fn extend_rows(dst: &mut Vec<Vec<char>>, src: &Vec<Vec<char>>)
    ensures
        rows(final(dst)@) == rows(old(dst)@) + rows(src@),
{
    let mut i: usize = 0;
    assert(rows(dst@) =~= rows(old(dst)@) + rows(src@).take(0));
    while i < src.len()
        invariant
            i <= src.len(),
            rows(dst@) == rows(old(dst)@) + rows(src@).take(i as int),
        decreases src.len() - i,
    {
        let row = copy_chars(&src[i]);
        proof {
            lemma_rows_push(dst@, row);
        }
        dst.push(row);
        assert(rows(dst@) =~= rows(old(dst)@) + rows(src@).take(i + 1));
        i += 1;
    }
    assert(rows(src@).take(src.len() as int) =~= rows(src@));
}

/// The characters of each string of `v`.
pub fn chars_of_all(v: &Vec<String>) -> (r: Vec<Vec<char>>)
    ensures
        rows(r@) == texts(v@),
{
    let mut out: Vec<Vec<char>> = Vec::new();
    let mut i: usize = 0;
    assert(rows(out@) =~= texts(v@).take(0));
    while i < v.len()
        invariant
            i <= v.len(),
            rows(out@) == texts(v@).take(i as int),
        decreases v.len() - i,
    {
        let row = chars_of(v[i].as_str());
        proof {
            lemma_rows_push(out@, row);
        }
        out.push(row);
        assert(rows(out@) =~= texts(v@).take(i + 1));
        i += 1;
    }
    assert(texts(v@).take(v.len() as int) =~= texts(v@));
    out
}

/// `s` without the line feeds at its end.
pub open spec fn without_feeds(s: Seq<char>) -> Seq<char>
    decreases s.len(),
{
    if s.len() > 0 && s.last() == '\n' {
        without_feeds(s.drop_last())
    } else {
        s
    }
}

/// Removes the line feeds at the end of `v`.
pub fn strip_feeds(v: &Vec<char>) -> (r: Vec<char>)
    ensures
        r@ == without_feeds(v@),
{
    let mut n: usize = v.len();
    assert(v@.take(n as int) =~= v@);
    while n > 0 && v[n - 1] == '\n'
        invariant
            n <= v.len(),
            without_feeds(v@) == without_feeds(v@.take(n as int)),
        decreases n,
    {
        assert(v@.take(n as int).drop_last() =~= v@.take(n - 1));
        n -= 1;
    }
    let r = slice_chars(v, 0, n);
    assert(v@.subrange(0, n as int) =~= v@.take(n as int));
    r
}

/// One row holding `line`.
pub fn one_row(line: Vec<char>) -> (r: Vec<Vec<char>>)
    ensures
        rows(r@) == seq![line@],
{
    let mut out: Vec<Vec<char>> = Vec::new();
    proof {
        lemma_rows_push(out@, line);
    }
    out.push(line);
    assert(rows(out@) =~= seq![line@]);
    out
}

/// No rows.
pub fn no_rows() -> (r: Vec<Vec<char>>)
    ensures
        rows(r@) == Seq::<Seq<char>>::empty(),
{
    let out: Vec<Vec<char>> = Vec::new();
    assert(rows(out@) =~= Seq::<Seq<char>>::empty());
    out
}


/// The number of bytes that `s` takes in UTF-8.
pub open spec fn byte_len(s: Seq<char>) -> nat {
    encode_utf8(s).len()
}

/// The number of bytes that `c` takes in UTF-8.
pub open spec fn char_width(c: char) -> nat {
    encode_scalar(c as u32).len()
}

pub proof fn lemma_char_width(c: char)
    ensures
        1 <= char_width(c) <= 4,
        char_width(c) == if (c as u32) <= 0x7f {
            1nat
        } else if (c as u32) <= 0x7ff {
            2nat
        } else if (c as u32) <= 0xffff {
            3nat
        } else {
            4nat
        },
{
    vstd::utf8::char_is_scalar(c);
}

/// The bytes of two texts written one after the other are the bytes of
/// the first followed by those of the second.
pub proof fn lemma_encode_concat(a: Seq<char>, b: Seq<char>)
    ensures
        encode_utf8(a + b) == encode_utf8(a) + encode_utf8(b),
    decreases a.len(),
{
    if a.len() == 0 {
        assert(a + b =~= b);
        assert(encode_utf8(a) + encode_utf8(b) =~= encode_utf8(b));
    } else {
        assert((a + b).drop_first() =~= a.drop_first() + b);
        lemma_encode_concat(a.drop_first(), b);
        assert(encode_utf8(a + b) =~= encode_utf8(a) + encode_utf8(b));
    }
}

pub proof fn lemma_byte_len_concat(a: Seq<char>, b: Seq<char>)
    ensures
        byte_len(a + b) == byte_len(a) + byte_len(b),
{
    lemma_encode_concat(a, b);
}

/// The number of bytes that `c` takes in UTF-8.
pub fn width_of(c: char) -> (r: usize)
    ensures
        r == char_width(c),
        1 <= r <= 4,
{
    proof {
        lemma_char_width(c);
    }
    let code: u32 = c as u32;
    if code <= 0x7f {
        1
    } else if code <= 0x7ff {
        2
    } else if code <= 0xffff {
        3
    } else {
        4
    }
}

/// How many characters at the front of `s` fit in `budget` bytes.
pub open spec fn fitting_chars(s: Seq<char>, budget: int) -> nat
    decreases s.len(),
{
    if s.len() > 0 && char_width(s[0]) <= budget {
        1 + fitting_chars(s.drop_first(), budget - char_width(s[0]))
    } else {
        0
    }
}

pub proof fn lemma_fitting_chars_bound(s: Seq<char>, budget: int)
    ensures
        fitting_chars(s, budget) <= s.len(),
    decreases s.len(),
{
    if s.len() > 0 && char_width(s[0]) <= budget {
        lemma_fitting_chars_bound(s.drop_first(), budget - char_width(s[0]));
    }
}

/// The longest front of `v` that fits in `budget` bytes.
pub fn fitting_prefix(v: &Vec<char>, budget: usize) -> (r: Vec<char>)
    ensures
        r@ == v@.take(fitting_chars(v@, budget as int) as int),
        fitting_chars(v@, budget as int) <= v@.len(),
{
    let mut left: usize = budget;
    let mut i: usize = 0;
    proof {
        lemma_fitting_chars_bound(v@, budget as int);
        assert(v@.skip(0) =~= v@);
    }
    while i < v.len() && width_of(v[i]) <= left
        invariant
            i <= v.len(),
            fitting_chars(v@, budget as int) == i + fitting_chars(v@.skip(i as int), left as int),
        decreases v.len() - i,
    {
        assert(v@.skip(i as int).drop_first() =~= v@.skip(i + 1));
        left -= width_of(v[i]);
        i += 1;
    }
    let r = slice_chars(v, 0, i);
    assert(v@.subrange(0, i as int) =~= v@.take(i as int));
    r
}


/// Writes `n` in decimal.
pub fn decimal_u128(n: u128) -> (r: Vec<char>)
    ensures
        r@ == decimal_nat(n as nat),
    decreases n,
{
    if n < 10 {
        let mut v: Vec<char> = Vec::new();
        v.push(digit_of(n as u64));
        assert(v@ =~= seq![digit_char(n as int)]);
        v
    } else {
        let mut v = decimal_u128(n / 10);
        v.push(digit_of((n % 10) as u64));
        v
    }
}

/// Appends `n` in decimal to `dst`.
pub fn extend_count(dst: &mut Vec<char>, n: u128)
    ensures
        final(dst)@ == old(dst)@ + decimal(n as int),
{
    let digits = decimal_u128(n);
    extend_chars(dst, &digits);
}

/// The whole number nearest to `num / den`; of two that are equally
/// near, the even one.
pub open spec fn nearest(num: int, den: int) -> int {
    let q = num / den;
    let r = num % den;
    if 2 * r > den || (2 * r == den && q % 2 == 1) {
        q + 1
    } else {
        q
    }
}

/// The whole number nearest to `num / den`.
pub fn round_ratio(num: u128, den: u128) -> (r: u128)
    requires
        den > 0,
        num / den < u128::MAX,
    ensures
        r == nearest(num as int, den as int),
{
    let q: u128 = num / den;
    let rest: u128 = num % den;
    if rest > den - rest || (rest == den - rest && q % 2 == 1) {
        q + 1
    } else {
        q
    }
}

} // verus!
