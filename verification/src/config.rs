use crate::text::{
    begins_with, chars_of, extend_chars, is_text, lines_of, parse_u64, parsed_u64, rows,
    slice_chars, split_lines, starts_with, string_of, text_of, trim, trimmed,
};
use vstd::prelude::*;

verus! {

/// `s` in lower case. This names what `str::to_lowercase` returns.
pub uninterp spec fn lowercase_of(s: Seq<char>) -> Seq<char>;

/// Calls `str::to_lowercase`. The contract only gives the result its name.
#[verifier::external_body]
fn to_lowercase(s: &str) -> (r: String)
    ensures
        r@ == lowercase_of(s@),
{
    s.to_lowercase()
}

/// The settings of the server. Spans that may have a fraction are held in
/// milliseconds, the pruning threshold in millionths of a weight.
pub struct Config {
    pub neverhang_timeout_default: u64,
    pub neverhang_timeout_max: u64,
    pub neverhang_failure_threshold: usize,
    pub neverhang_recovery_timeout: u64,
    pub neverhang_sample_window: u64,
    pub yield_after_default_ms: u64,
    pub alan_db_path: String,
    pub alan_decay_half_life_hours: u64,
    pub alan_prune_threshold_micro: u32,
    pub alan_prune_interval_hours: u64,
    pub alan_max_entries: usize,
    pub alan_recent_window_minutes: u64,
    pub alan_streak_threshold: i64,
    pub alan_manopt_enabled: bool,
    pub alan_manopt_timeout_ms: u64,
    pub alan_manopt_fail_trigger: i64,
    pub alan_manopt_fail_present: i64,
    pub truncate_output_at: usize,
    pub pipestatus_marker: String,
}

/// What the environment says: the value of each variable that is set.
pub struct EnvOverrides {
    pub home: Option<String>,
    pub timeout_default: Option<String>,
    pub timeout_max: Option<String>,
    pub db_path: Option<String>,
    pub manopt_enabled: Option<String>,
    /// The time allowed for reading a manual page, in milliseconds, where
    /// the variable holds a number.
    pub manopt_timeout_ms: Option<u64>,
}

/// A path in the user's home directory: `~` alone or followed by `/`.
pub open spec fn is_home_path(path: Seq<char>) -> bool {
    path == "~"@ || (path.len() >= 2 && path[0] == '~' && path[1] == '/')
}

/// `path` with a leading `~` replaced by the home directory, where the
/// path begins in it and the home directory is known.
pub open spec fn expanded(path: Seq<char>, home: Option<Seq<char>>) -> Seq<char> {
    match home {
        Some(h) => if is_home_path(path) {
            h + path.skip(1)
        } else {
            path
        },
        None => path,
    }
}

/// Replaces a leading `~` by the home directory.
pub fn expand_tilde(path: &str, home: Option<&str>) -> (r: String)
    ensures
        r@ == expanded(
            path@,
            match home {
                Some(h) => Some(h@),
                None => None,
            },
        ),
{
    let chars = chars_of(path);
    proof {
        reveal_strlit("~");
    }
    let in_home = (chars.len() == 1 && chars[0] == '~') || (chars.len() >= 2 && chars[0] == '~'
        && chars[1] == '/');
    assert(in_home == is_home_path(path@)) by {
        if chars.len() == 1 && chars[0] == '~' {
            assert(path@ =~= "~"@);
        }
    }
    match home {
        Some(h) => {
            if in_home {
                let mut out = chars_of(h);
                let rest = slice_chars(&chars, 1, chars.len());
                assert(rest@ =~= path@.skip(1));
                extend_chars(&mut out, &rest);
                string_of(&out)
            } else {
                string_of(&chars)
            }
        },
        None => string_of(&chars),
    }
}

/// Whether a word switches a setting off: `0`, `false`, `no` or `off`,
/// in any case.
pub open spec fn says_off(word: Seq<char>) -> bool {
    let w = lowercase_of(word);
    w == "0"@ || w == "false"@ || w == "no"@ || w == "off"@
}

pub open spec fn u64_or(text: Option<Seq<char>>, fallback: u64) -> u64 {
    match text {
        Some(t) => match parsed_u64(t) {
            Some(n) => n as u64,
            None => fallback,
        },
        None => fallback,
    }
}

fn read_u64_or(text: &Option<String>, fallback: u64) -> (r: u64)
    ensures
        r == u64_or(text_of(*text), fallback),
{
    match text {
        Some(t) => match parse_u64(&chars_of(t.as_str())) {
            Some(n) => n,
            None => fallback,
        },
        None => fallback,
    }
}

/// Whether `c` holds the settings of a server that was told nothing.
pub open spec fn is_default(c: Config) -> bool {
    &&& c.neverhang_timeout_default == 3600
    &&& c.neverhang_timeout_max == 600
    &&& c.neverhang_failure_threshold == 3
    &&& c.neverhang_recovery_timeout == 300
    &&& c.neverhang_sample_window == 3600
    &&& c.yield_after_default_ms == 2000
    &&& c.alan_db_path@ == "~/.local/share/zsh-tool/alan.db"@
    &&& c.alan_decay_half_life_hours == 24
    &&& c.alan_prune_threshold_micro == 10_000
    &&& c.alan_prune_interval_hours == 6
    &&& c.alan_max_entries == 10000
    &&& c.alan_recent_window_minutes == 10
    &&& c.alan_streak_threshold == 3
    &&& c.alan_manopt_enabled
    &&& c.alan_manopt_timeout_ms == 2000
    &&& c.alan_manopt_fail_trigger == 2
    &&& c.alan_manopt_fail_present == 3
    &&& c.truncate_output_at == 30000
    &&& c.pipestatus_marker@ == "___ZSH_PIPESTATUS_MARKER_f9a8b7c6___"@
}

/// Whether `after` is `before` with what the environment says taken
/// over: the two time limits where they are numbers, the path of the
/// store with its `~` expanded, whether options are shown, and the time
/// allowed for reading a manual page.
pub open spec fn env_applied(before: Config, after: Config, env: EnvOverrides) -> bool {
    &&& after.neverhang_timeout_default == u64_or(
        text_of(env.timeout_default),
        before.neverhang_timeout_default,
    )
    &&& after.neverhang_timeout_max == u64_or(
        text_of(env.timeout_max),
        before.neverhang_timeout_max,
    )
    &&& after.alan_db_path@ == (match env.db_path {
        Some(p) => expanded(p@, text_of(env.home)),
        None => before.alan_db_path@,
    })
    &&& after.alan_manopt_enabled == (match env.manopt_enabled {
        Some(w) => !says_off(w@),
        None => before.alan_manopt_enabled,
    })
    &&& after.alan_manopt_timeout_ms == (match env.manopt_timeout_ms {
        Some(ms) => ms,
        None => before.alan_manopt_timeout_ms,
    })
    &&& after.neverhang_failure_threshold == before.neverhang_failure_threshold
    &&& after.neverhang_recovery_timeout == before.neverhang_recovery_timeout
    &&& after.neverhang_sample_window == before.neverhang_sample_window
    &&& after.yield_after_default_ms == before.yield_after_default_ms
    &&& after.alan_decay_half_life_hours == before.alan_decay_half_life_hours
    &&& after.alan_prune_threshold_micro == before.alan_prune_threshold_micro
    &&& after.alan_prune_interval_hours == before.alan_prune_interval_hours
    &&& after.alan_max_entries == before.alan_max_entries
    &&& after.alan_recent_window_minutes == before.alan_recent_window_minutes
    &&& after.alan_streak_threshold == before.alan_streak_threshold
    &&& after.alan_manopt_fail_trigger == before.alan_manopt_fail_trigger
    &&& after.alan_manopt_fail_present == before.alan_manopt_fail_present
    &&& after.truncate_output_at == before.truncate_output_at
    &&& after.pipestatus_marker@ == before.pipestatus_marker@
}

impl Default for Config {
    /// The settings of a server that was told nothing. The path of the
    /// store begins with `~`, which stands for the home directory.
    fn default() -> (r: Self)
        ensures
            is_default(r),
    {
        Config {
            neverhang_timeout_default: 3600,
            neverhang_timeout_max: 600,
            neverhang_failure_threshold: 3,
            neverhang_recovery_timeout: 300,
            neverhang_sample_window: 3600,
            yield_after_default_ms: 2000,
            alan_db_path: "~/.local/share/zsh-tool/alan.db".to_owned(),
            alan_decay_half_life_hours: 24,
            alan_prune_threshold_micro: 10_000,
            alan_prune_interval_hours: 6,
            alan_max_entries: 10000,
            alan_recent_window_minutes: 10,
            alan_streak_threshold: 3,
            alan_manopt_enabled: true,
            alan_manopt_timeout_ms: 2000,
            alan_manopt_fail_trigger: 2,
            alan_manopt_fail_present: 3,
            truncate_output_at: 30000,
            pipestatus_marker: "___ZSH_PIPESTATUS_MARKER_f9a8b7c6___".to_owned(),
        }
    }
}

impl Config {
    /// Takes over what the environment says. A number that cannot be read
    /// leaves the setting as it is.
    pub fn apply_env_overrides(&mut self, env: &EnvOverrides)
        ensures
            env_applied(*old(self), *final(self), *env),
    {
        self.neverhang_timeout_default = read_u64_or(
            &env.timeout_default,
            self.neverhang_timeout_default,
        );
        self.neverhang_timeout_max = read_u64_or(&env.timeout_max, self.neverhang_timeout_max);
        match &env.db_path {
            Some(p) => {
                let home: Option<&str> = match &env.home {
                    Some(h) => Some(h.as_str()),
                    None => None,
                };
                self.alan_db_path = expand_tilde(p.as_str(), home);
            },
            None => {},
        }
        match &env.manopt_enabled {
            Some(w) => {
                let low = chars_of(to_lowercase(w.as_str()).as_str());
                let off = is_text(&low, "0") || is_text(&low, "false") || is_text(&low, "no")
                    || is_text(&low, "off");
                self.alan_manopt_enabled = !off;
            },
            None => {},
        }
        match env.manopt_timeout_ms {
            Some(ms) => {
                self.alan_manopt_timeout_ms = ms;
            },
            None => {},
        }
    }

    /// The defaults with what the environment says taken over.
    pub fn from_env(env: &EnvOverrides) -> (r: Self)
        ensures
            exists|d: Config| #[trigger] is_default(d) && env_applied(d, r, *env),
    {
        let mut cfg = Config::default();
        let ghost d = cfg;
        cfg.apply_env_overrides(env);
        assert(is_default(d) && env_applied(d, cfg, *env));
        cfg
    }

    /// The time a command may run: what was asked for, or the default, but
    /// never more than the maximum.
    pub fn effective_timeout(&self, requested: Option<u64>) -> (r: u64)
        ensures
            r == timeout_for(requested, self.neverhang_timeout_default, self.neverhang_timeout_max),
    {
        let wanted: u64 = match requested {
            Some(t) => t,
            None => self.neverhang_timeout_default,
        };
        if wanted < self.neverhang_timeout_max {
            wanted
        } else {
            self.neverhang_timeout_max
        }
    }
}

pub open spec fn timeout_for(requested: Option<u64>, default: u64, max: u64) -> u64 {
    let wanted = match requested {
        Some(t) => t,
        None => default,
    };
    if wanted < max {
        wanted
    } else {
        max
    }
}

/// Where the first colon of `line` stands, or -1.
pub open spec fn first_colon(line: Seq<char>) -> int
    decreases line.len(),
{
    if line.len() == 0 {
        -1
    } else if first_colon(line.drop_last()) >= 0 {
        first_colon(line.drop_last())
    } else if line.last() == ':' {
        line.len() - 1
    } else {
        -1
    }
}

/// What a line of the settings file gives to `key`: the text after the
/// first colon, trimmed, where the text before it, trimmed, is `key`. A
/// line that is empty or begins with `#` once trimmed gives nothing.
pub open spec fn line_value(line: Seq<char>, key: Seq<char>) -> Option<Seq<char>> {
    let l = trimmed(line);
    let at = first_colon(l);
    if l.len() == 0 || starts_with(l, '#') || at < 0 {
        None
    } else if trimmed(l.take(at)) == key {
        Some(trimmed(l.skip(at + 1)))
    } else {
        None
    }
}

/// What the first `n` lines give to `key`: the value on the last line that names it.
pub open spec fn value_upto(lines: Seq<Seq<char>>, key: Seq<char>, n: int) -> Option<Seq<char>>
    decreases n,
{
    if n <= 0 {
        None
    } else {
        match line_value(lines[n - 1], key) {
            Some(v) => Some(v),
            None => value_upto(lines, key, n - 1),
        }
    }
}

/// What a settings file gives to `key`.
pub open spec fn yaml_value(content: Seq<char>, key: Seq<char>) -> Option<Seq<char>> {
    value_upto(lines_of(content), key, lines_of(content).len() as int)
}

fn find_colon(line: &Vec<char>) -> (r: Option<usize>)
    ensures
        match r {
            Some(i) => i == first_colon(line@) && i < line.len(),
            None => first_colon(line@) == -1,
        },
{
    let mut i: usize = 0;
    assert(line@.take(0) =~= Seq::<char>::empty());
    while i < line.len()
        invariant
            i <= line.len(),
            first_colon(line@.take(i as int)) == -1,
        decreases line.len() - i,
    {
        assert(line@.take(i + 1).drop_last() =~= line@.take(i as int));
        if line[i] == ':' {
            proof {
                lemma_first_colon_stays(line@, i + 1);
            }
            return Some(i);
        }
        i += 1;
    }
    assert(line@.take(line.len() as int) =~= line@);
    None
}

proof fn lemma_first_colon_stays(line: Seq<char>, n: int)
    requires
        0 <= n <= line.len(),
        first_colon(line.take(n)) >= 0,
    ensures
        first_colon(line) == first_colon(line.take(n)),
    decreases line.len() - n,
{
    if n == line.len() {
        assert(line.take(n) =~= line);
    } else {
        assert(line.take(n + 1).drop_last() =~= line.take(n));
        lemma_first_colon_stays(line, n + 1);
    }
}

fn value_on_line(line: &Vec<char>, key: &str) -> (r: Option<Vec<char>>)
    ensures
        match r {
            Some(v) => line_value(line@, key@) == Some(v@),
            None => line_value(line@, key@) is None,
        },
{
    let l = trim(line);
    if l.len() == 0 || begins_with(&l, '#') {
        return None;
    }
    match find_colon(&l) {
        Some(at) => {
            let name = trim(&slice_chars(&l, 0, at));
            assert(l@.subrange(0, at as int) =~= l@.take(at as int));
            if is_text(&name, key) {
                let value = trim(&slice_chars(&l, at + 1, l.len()));
                assert(l@.subrange(at + 1, l.len() as int) =~= l@.skip(at + 1));
                Some(value)
            } else {
                None
            }
        },
        None => None,
    }
}

/// Looks `key` up in the text of a settings file of `key: value` lines.
pub fn yaml_lookup(content: &str, key: &str) -> (r: Option<String>)
    ensures
        text_of(r) == yaml_value(content@, key@),
{
    let lines = split_lines(&chars_of(content));
    let mut n: usize = lines.len();
    while n > 0
        invariant
            n <= lines.len(),
            rows(lines@) == lines_of(content@),
            yaml_value(content@, key@) == value_upto(rows(lines@), key@, n as int),
        decreases n,
    {
        assert(rows(lines@)[n - 1] == lines@[n - 1]@);
        match value_on_line(&lines[n - 1], key) {
            Some(v) => {
                return Some(string_of(&v));
            },
            None => {},
        }
        n -= 1;
    }
    None
}

} // verus!
