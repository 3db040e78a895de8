use crate::pattern::{
    pattern_double_quoted, pattern_number, pattern_single_quoted, pattern_space, regex_replaced,
    replace_all,
};
use crate::text::{
    begins_with, chars_of, is_text, join_from, joined, lemma_rows_push, rows, split_words,
    starts_with, string_of, trim, trimmed, words_of,
};
use sha2::{Digest, Sha256};
use vstd::prelude::*;
use vstd::utf8::encode_utf8;

verus! {

/// The SHA-256 digest of `data`. This names what `sha2::Sha256::digest` returns.
pub uninterp spec fn sha256_digest(data: Seq<u8>) -> Seq<u8>;

/// Calls `sha2::Sha256::digest`. The contract names the digest and claims
/// that it has 32 bytes, the output size of SHA-256.
#[verifier::external_body]
fn sha256(data: &[u8]) -> (r: Vec<u8>)
    ensures
        r@ == sha256_digest(data@),
        r@.len() == 32,
{
    Sha256::digest(data).to_vec()
}

/// The form in which commands are compared: trimmed, white space
/// collapsed, quoted spans emptied, numbers replaced by `N`.
pub open spec fn normal_form(command: Seq<char>) -> Seq<char> {
    let spaced = regex_replaced(pattern_space(), trimmed(command), " "@);
    let double = regex_replaced(pattern_double_quoted(), spaced, "\"\""@);
    let single = regex_replaced(pattern_single_quoted(), double, "''"@);
    regex_replaced(pattern_number(), single, "N"@)
}

/// The lower-case hexadecimal digit for `n`.
pub open spec fn hex_digit(n: int) -> char {
    if n == 0 {
        '0'
    } else if n == 1 {
        '1'
    } else if n == 2 {
        '2'
    } else if n == 3 {
        '3'
    } else if n == 4 {
        '4'
    } else if n == 5 {
        '5'
    } else if n == 6 {
        '6'
    } else if n == 7 {
        '7'
    } else if n == 8 {
        '8'
    } else if n == 9 {
        '9'
    } else if n == 10 {
        'a'
    } else if n == 11 {
        'b'
    } else if n == 12 {
        'c'
    } else if n == 13 {
        'd'
    } else if n == 14 {
        'e'
    } else {
        'f'
    }
}

/// Two lower-case hexadecimal digits for each byte, in order.
pub open spec fn hex_of(bytes: Seq<u8>) -> Seq<char>
    decreases bytes.len(),
{
    if bytes.len() == 0 {
        Seq::empty()
    } else {
        hex_of(bytes.drop_last()).push(hex_digit(bytes.last() as int / 16)).push(
            hex_digit(bytes.last() as int % 16),
        )
    }
}

pub proof fn lemma_hex_len(bytes: Seq<u8>)
    ensures
        hex_of(bytes).len() == 2 * bytes.len(),
    decreases bytes.len(),
{
    if bytes.len() > 0 {
        lemma_hex_len(bytes.drop_last());
    }
}

/// How many bytes of a digest make a fingerprint.
pub open spec fn fingerprint_bytes(digest: Seq<u8>) -> int {
    if digest.len() < 8 {
        digest.len() as int
    } else {
        8
    }
}

/// The fingerprint of a command: the first eight bytes of the SHA-256
/// digest of its normal form, in lower-case hexadecimal.
pub open spec fn fingerprint(command: Seq<char>) -> Seq<char> {
    let digest = sha256_digest(encode_utf8(normal_form(command)));
    hex_of(digest.take(fingerprint_bytes(digest)))
}

fn hex_char(n: u8) -> (c: char)
    requires
        n < 16,
    ensures
        c == hex_digit(n as int),
{
    match n {
        0 => '0',
        1 => '1',
        2 => '2',
        3 => '3',
        4 => '4',
        5 => '5',
        6 => '6',
        7 => '7',
        8 => '8',
        9 => '9',
        10 => 'a',
        11 => 'b',
        12 => 'c',
        13 => 'd',
        14 => 'e',
        _ => 'f',
    }
}

/// The first eight bytes of `digest`, or all of a shorter one, in
/// lower-case hexadecimal.
pub fn hex_prefix(digest: &[u8]) -> (r: String)
    ensures
        r@ == hex_of(digest@.take(fingerprint_bytes(digest@))),
{
    let n: usize = if digest.len() < 8 {
        digest.len()
    } else {
        8
    };
    let mut out: Vec<char> = Vec::new();
    let mut i: usize = 0;
    assert(digest@.take(0) =~= Seq::<u8>::empty());
    while i < n
        invariant
            i <= n <= digest.len(),
            out@ == hex_of(digest@.take(i as int)),
        decreases n - i,
    {
        let b: u8 = digest[i];
        assert(digest@.take(i + 1).drop_last() =~= digest@.take(i as int));
        out.push(hex_char(b / 16));
        out.push(hex_char(b % 16));
        i += 1;
    }
    string_of(&out)
}

/// The normal form of a command.
pub fn normalize_command(command: &str) -> (r: String)
    ensures
        r@ == normal_form(command@),
{
    let chars = chars_of(command);
    let bare = string_of(&trim(&chars));
    let spaced = replace_all("\\s+", bare.as_str(), " ");
    let double = replace_all("\"[^\"]*\"", spaced.as_str(), "\"\"");
    let single = replace_all("'[^']*'", double.as_str(), "''");
    replace_all("\\b\\d+\\b", single.as_str(), "N")
}

/// The fingerprint under which a command's runs are counted: sixteen
/// hexadecimal digits.
pub fn hash_command(command: &str) -> (r: String)
    ensures
        r@ == fingerprint(command@),
        r@.len() == 16,
{
    let normalized = normalize_command(command);
    let digest = sha256(normalized.as_str().as_bytes());
    proof {
        lemma_hex_len(digest@.take(8));
    }
    hex_prefix(digest.as_slice())
}

/// Commands with the same normal form have the same fingerprint.
pub proof fn lemma_same_normal_form_same_fingerprint(a: Seq<char>, b: Seq<char>)
    requires
        normal_form(a) == normal_form(b),
    ensures
        fingerprint(a) == fingerprint(b),
{
}

/// White space around a command does not change its fingerprint.
pub proof fn lemma_fingerprint_ignores_outer_space(a: Seq<char>, b: Seq<char>)
    requires
        trimmed(a) == trimmed(b),
    ensures
        fingerprint(a) == fingerprint(b),
{
}


/// Whether `token` is one of the programs whose first argument is a
/// subcommand.
pub open spec fn is_base_command(token: Seq<char>) -> bool {
    ||| token == "git"@
    ||| token == "npm"@
    ||| token == "yarn"@
    ||| token == "pip"@
    ||| token == "docker"@
    ||| token == "kubectl"@
    ||| token == "make"@
    ||| token == "cargo"@
    ||| token == "go"@
    ||| token == "python"@
    ||| token == "node"@
    ||| token == "ruby"@
    ||| token == "curl"@
    ||| token == "wget"@
    ||| token == "cat"@
    ||| token == "grep"@
    ||| token == "find"@
    ||| token == "ls"@
    ||| token == "cd"@
    ||| token == "rm"@
    ||| token == "cp"@
    ||| token == "mv"@
    ||| token == "mkdir"@
    ||| token == "systemctl"@
    ||| token == "journalctl"@
    ||| token == "apt"@
    ||| token == "pacman"@
    ||| token == "brew"@
}

/// The template of the tokens from position `i` on: options as they are,
/// each run of other tokens as one `*`. `after_star` says whether the
/// token before `i` was part of such a run.
pub open spec fn template_rest(tokens: Seq<Seq<char>>, i: int, after_star: bool) -> Seq<Seq<char>>
    decreases tokens.len() - i,
{
    if i < 0 || i >= tokens.len() {
        Seq::empty()
    } else if starts_with(tokens[i], '-') {
        seq![tokens[i]] + template_rest(tokens, i + 1, false)
    } else if after_star {
        template_rest(tokens, i + 1, true)
    } else {
        seq!["*"@] + template_rest(tokens, i + 1, true)
    }
}

/// Whether the second token is kept as the subcommand of the first.
pub open spec fn has_subcommand(tokens: Seq<Seq<char>>) -> bool {
    tokens.len() > 1 && is_base_command(tokens[0]) && !starts_with(tokens[1], '-')
}

/// The template of a tokenized command: the program, its subcommand where
/// it takes one, then options and wildcards.
pub open spec fn template_tokens(tokens: Seq<Seq<char>>) -> Seq<Seq<char>> {
    if tokens.len() == 0 {
        Seq::empty()
    } else if has_subcommand(tokens) {
        seq![tokens[0], tokens[1]] + template_rest(tokens, 2, false)
    } else {
        seq![tokens[0]] + template_rest(tokens, 1, false)
    }
}

/// The template of a command: the template of its words, joined by spaces.
pub open spec fn template_of(command: Seq<char>) -> Seq<char> {
    joined(template_tokens(words_of(command)), " "@)
}

fn is_base(token: &Vec<char>) -> (r: bool)
    ensures
        r == is_base_command(token@),
{
    is_text(token, "git") || is_text(token, "npm") || is_text(token, "yarn")
        || is_text(token, "pip") || is_text(token, "docker") || is_text(token, "kubectl")
        || is_text(token, "make") || is_text(token, "cargo") || is_text(token, "go")
        || is_text(token, "python") || is_text(token, "node") || is_text(token, "ruby")
        || is_text(token, "curl") || is_text(token, "wget") || is_text(token, "cat")
        || is_text(token, "grep") || is_text(token, "find") || is_text(token, "ls")
        || is_text(token, "cd") || is_text(token, "rm") || is_text(token, "cp")
        || is_text(token, "mv") || is_text(token, "mkdir") || is_text(token, "systemctl")
        || is_text(token, "journalctl") || is_text(token, "apt") || is_text(token, "pacman")
        || is_text(token, "brew")
}

/// The template of a tokenized command.
pub fn template_words(tokens: &Vec<Vec<char>>) -> (r: Vec<Vec<char>>)
    ensures
        rows(r@) == template_tokens(rows(tokens@)),
{
    let mut out: Vec<Vec<char>> = Vec::new();
    if tokens.len() == 0 {
        assert(rows(out@) =~= Seq::<Seq<char>>::empty());
        return out;
    }
    let ghost all = rows(tokens@);
    let mut i: usize = 1;
    proof {
        lemma_rows_push(out@, tokens@[0]);
    }
    out.push(tokens[0].clone());
    assert(rows(out@) =~= seq![all[0]]);
    if tokens.len() > 1 && is_base(&tokens[0]) && !begins_with(&tokens[1], '-') {
        proof {
            lemma_rows_push(out@, tokens@[1]);
        }
        out.push(tokens[1].clone());
        assert(rows(out@) =~= seq![all[0], all[1]]);
        i = 2;
    }
    let mut after_star = false;
    while i < tokens.len()
        invariant
            1 <= i <= tokens.len(),
            all == rows(tokens@),
            template_tokens(all) == rows(out@) + template_rest(all, i as int, after_star),
        decreases tokens.len() - i,
    {
        let ghost before = rows(out@);
        if begins_with(&tokens[i], '-') {
            proof {
                lemma_rows_push(out@, tokens@[i as int]);
            }
            out.push(tokens[i].clone());
            after_star = false;
            assert(before + (seq![all[i as int]] + template_rest(all, i + 1, false)) =~= rows(out@)
                + template_rest(all, i + 1, false));
        } else if !after_star {
            let star = chars_of("*");
            proof {
                lemma_rows_push(out@, star);
            }
            out.push(star);
            after_star = true;
            assert(before + (seq!["*"@] + template_rest(all, i + 1, true)) =~= rows(out@)
                + template_rest(all, i + 1, true));
        }
        i += 1;
    }
    assert(rows(out@) + Seq::<Seq<char>>::empty() =~= rows(out@));
    out
}

/// The template under which similar commands are found: the program and
/// its subcommand, the options in their order, and `*` for each run of
/// other arguments.
pub fn template_command(command: &str) -> (r: String)
    ensures
        r@ == template_of(command@),
{
    let chars = chars_of(command);
    let words = split_words(&chars);
    let parts = template_words(&words);
    let space = chars_of(" ");
    assert(rows(parts@).skip(0) =~= rows(parts@));
    let line = join_from(&parts, 0, &space);
    string_of(&line)
}

} // verus!
