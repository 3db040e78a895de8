use crate::alan::hash::{fingerprint, hash_command, template_command, template_of};
use crate::alan::ssh::{get_ssh_insights, ssh_insights};
use crate::alan::store::{
    exact_runs, exact_successes, ManoptText, ObservationText, one_if, similar_runs, Store,
    StoreText, streak_of, tally, trailing_failures,
};
use crate::alan::streak::Streak;
use crate::clock::now_micros;
use crate::text::{
    chars_of, decimal, extend_count, extend_decimal, extend_str, extend_unsigned, find_last,
    is_text, last_index_of, lemma_last_index_of_bounds, nearest, round_ratio, rows, same_chars,
    slice_chars, split_words, string_of, trim, trimmed, words_of,
};
use vstd::prelude::*;

verus! {

/// An insight as text: its level, `info` or `warning`, and its message.
pub type InsightText = (Seq<char>, Seq<char>);

/// The levels and messages held by a vector of insights.
pub open spec fn insight_texts(v: Seq<(String, String)>) -> Seq<InsightText> {
    crate::text::pair_texts(v)
}

pub proof fn lemma_insight_texts_push(v: Seq<(String, String)>, level: String, message: String)
    ensures
        insight_texts(v.push((level, message))) == insight_texts(v).push((level@, message@)),
{
    assert(insight_texts(v.push((level, message))) =~= insight_texts(v).push(
        (level@, message@),
    ));
}

/// The name of the program that a command runs: the first word, without
/// the directories before its last `/`.
pub open spec fn base_command(command: Seq<char>) -> Seq<char> {
    let words = words_of(command);
    if words.len() == 0 {
        Seq::empty()
    } else {
        words[0].subrange(last_index_of(words[0], '/') + 1, words[0].len() as int)
    }
}

/// What an exit code means whatever the program.
pub open spec fn universal_meaning(exit_code: int) -> Option<Seq<char>> {
    if exit_code == 126 {
        Some("permission denied"@)
    } else if exit_code == 127 {
        Some("command not found"@)
    } else if exit_code == 255 {
        Some("SSH connection failed"@)
    } else {
        None
    }
}

/// What a non-zero exit code means for a program that uses it to answer.
pub open spec fn known_meaning(base: Seq<char>, exit_code: int) -> Option<Seq<char>> {
    if exit_code != 1 {
        None
    } else if base == "grep"@ {
        Some("no match"@)
    } else if base == "diff"@ || base == "cmp"@ {
        Some("files differ"@)
    } else if base == "test"@ || base == "["@ {
        Some("condition false"@)
    } else {
        None
    }
}

pub open spec fn silent_insight(exit_code: int, output: Seq<char>) -> Seq<InsightText> {
    if exit_code == 0 && trimmed(output).len() == 0 {
        seq![("info"@, "No output produced."@)]
    } else {
        Seq::empty()
    }
}

pub open spec fn universal_message(meaning: Seq<char>, exit_code: int) -> Seq<char> {
    meaning + " (exit "@ + decimal(exit_code) + ")"@
}

pub open spec fn known_message(base: Seq<char>, meaning: Seq<char>, exit_code: int) -> Seq<char> {
    base + " exit "@ + decimal(exit_code) + " = "@ + meaning + " (normal)"@
}

pub open spec fn exit_insight(command: Seq<char>, exit_code: int) -> Seq<InsightText> {
    match universal_meaning(exit_code) {
        Some(meaning) => seq![("warning"@, universal_message(meaning, exit_code))],
        None => match known_meaning(base_command(command), exit_code) {
            Some(meaning) => seq![
                ("info"@, known_message(base_command(command), meaning, exit_code)),
            ],
            None => Seq::empty(),
        },
    }
}

/// Whether the exit of a segment that is not the last is reported: any
/// but 0 and 141, the exit of a writer whose reader has left.
pub open spec fn is_masked_failure(exit_code: int) -> bool {
    exit_code != 0 && exit_code != 141
}

pub open spec fn masking_message(position: int, exit_code: int) -> Seq<char> {
    "pipe segment "@ + decimal(position) + " exited "@ + decimal(exit_code)
        + " (masked by downstream)"@
}

/// The warnings for the first `n` segments of a pipeline.
pub open spec fn masking_insights(pipestatus: Seq<i32>, n: int) -> Seq<InsightText>
    decreases n,
{
    if n <= 0 {
        Seq::empty()
    } else if is_masked_failure(pipestatus[n - 1] as int) {
        masking_insights(pipestatus, n - 1).push(
            ("warning"@, masking_message(n, pipestatus[n - 1] as int)),
        )
    } else {
        masking_insights(pipestatus, n - 1)
    }
}

/// What is said of a finished command: that it was silent, what its exit
/// code means, and which failures in the pipeline the last segment hides.
pub open spec fn post_insights(command: Seq<char>, pipestatus: Seq<i32>, output: Seq<char>) -> Seq<
    InsightText,
> {
    if pipestatus.len() == 0 {
        Seq::empty()
    } else {
        silent_insight(pipestatus.last() as int, output) + exit_insight(
            command,
            pipestatus.last() as int,
        ) + masking_insights(pipestatus, pipestatus.len() - 1)
    }
}

/// The name of the program that a command runs.
pub fn extract_base_command(command: &str) -> (r: String)
    ensures
        r@ == base_command(command@),
{
    let chars = chars_of(command);
    let words = split_words(&chars);
    if words.len() == 0 {
        return String::new();
    }
    let word = &words[0];
    assert(rows(words@)[0] == word@);
    proof {
        lemma_last_index_of_bounds(word@, '/');
    }
    let from: usize = match find_last(word, '/') {
        Some(at) => at + 1,
        None => 0,
    };
    string_of(&slice_chars(word, from, word.len()))
}

fn universal_exit_codes(exit_code: i32) -> (r: Option<&'static str>)
    ensures
        match r {
            Some(m) => universal_meaning(exit_code as int) == Some(m@),
            None => universal_meaning(exit_code as int) is None,
        },
{
    if exit_code == 126 {
        Some("permission denied")
    } else if exit_code == 127 {
        Some("command not found")
    } else if exit_code == 255 {
        Some("SSH connection failed")
    } else {
        None
    }
}

fn known_exit_codes(base: &Vec<char>, exit_code: i32) -> (r: Option<&'static str>)
    ensures
        match r {
            Some(m) => known_meaning(base@, exit_code as int) == Some(m@),
            None => known_meaning(base@, exit_code as int) is None,
        },
{
    if exit_code != 1 {
        None
    } else if is_text(base, "grep") {
        Some("no match")
    } else if is_text(base, "diff") || is_text(base, "cmp") {
        Some("files differ")
    } else if is_text(base, "test") || is_text(base, "[") {
        Some("condition false")
    } else {
        None
    }
}

pub(crate) fn push_insight(insights: &mut Vec<(String, String)>, level: &str, message: &Vec<char>)
    ensures
        insight_texts(final(insights)@) == insight_texts(old(insights)@).push((level@, message@)),
{
    let level_text = level.to_owned();
    let message_text = string_of(message);
    proof {
        lemma_insight_texts_push(insights@, level_text, message_text);
    }
    insights.push((level_text, message_text));
}

/// What is said of a finished command, given the exit codes of its
/// pipeline's segments and what it printed.
pub fn get_post_insights(command: &str, pipestatus: &[i32], output: &str) -> (r: Vec<
    (String, String),
>)
    ensures
        insight_texts(r@) == post_insights(command@, pipestatus@, output@),
{
    let mut insights: Vec<(String, String)> = Vec::new();
    if pipestatus.len() == 0 {
        assert(insight_texts(insights@) =~= Seq::<InsightText>::empty());
        return insights;
    }
    let overall: i32 = pipestatus[pipestatus.len() - 1];
    let printed = trim(&chars_of(output));
    if overall == 0 && printed.len() == 0 {
        push_insight(&mut insights, "info", &chars_of("No output produced."));
    }
    assert(insight_texts(insights@) =~= silent_insight(overall as int, output@));
    let base = chars_of(extract_base_command(command).as_str());
    match universal_exit_codes(overall) {
        Some(meaning) => {
            let mut message = chars_of(meaning);
            extend_str(&mut message, " (exit ");
            extend_decimal(&mut message, overall as i64);
            extend_str(&mut message, ")");
            push_insight(&mut insights, "warning", &message);
        },
        None => match known_exit_codes(&base, overall) {
            Some(meaning) => {
                let mut message = base.clone();
                extend_str(&mut message, " exit ");
                extend_decimal(&mut message, overall as i64);
                extend_str(&mut message, " = ");
                extend_str(&mut message, meaning);
                extend_str(&mut message, " (normal)");
                push_insight(&mut insights, "info", &message);
            },
            None => {},
        },
    }
    assert(insight_texts(insights@) =~= silent_insight(overall as int, output@) + exit_insight(
        command@,
        overall as int,
    ));
    let ghost head = insight_texts(insights@);
    let last: usize = pipestatus.len() - 1;
    let mut i: usize = 0;
    assert(head + masking_insights(pipestatus@, 0) =~= head);
    while i < last
        invariant
            i <= last < pipestatus.len(),
            insight_texts(insights@) == head + masking_insights(pipestatus@, i as int),
        decreases last - i,
    {
        let code: i32 = pipestatus[i];
        if code != 0 && code != 141 {
            let mut message = chars_of("pipe segment ");
            extend_unsigned(&mut message, (i + 1) as u64);
            extend_str(&mut message, " exited ");
            extend_decimal(&mut message, code as i64);
            extend_str(&mut message, " (masked by downstream)");
            push_insight(&mut insights, "warning", &message);
            assert(insight_texts(insights@) =~= head + masking_insights(pipestatus@, i + 1));
        }
        i += 1;
    }
    insights
}


/// What is said of a command that was run before within the window:
/// which try this is, and how the earlier ones went.
pub open spec fn retry_insights(count: int, successes: int, window_minutes: u64) -> Seq<InsightText> {
    let failures = count - successes;
    if count == 0 {
        Seq::empty()
    } else if failures > 0 && successes == 0 {
        seq![
            (
                "warning"@,
                "Retry #"@ + decimal(count + 1) + ". Previous "@ + decimal(failures)
                    + " all failed. Different approach?"@,
            ),
        ]
    } else if successes > 0 && failures == 0 {
        seq![
            (
                "info"@,
                "Retry #"@ + decimal(count + 1) + ". Previous "@ + decimal(successes)
                    + " succeeded."@,
            ),
        ]
    } else {
        seq![
            (
                "info"@,
                "Retry #"@ + decimal(count + 1) + " in last "@ + decimal(window_minutes as int)
                    + "m. "@ + decimal(successes) + "/"@ + decimal(count)
                    + " succeeded."@,
            ),
        ]
    }
}

/// What is said of other commands with the same template, where the
/// command itself was not run within the window.
pub open spec fn similar_insights(template: Seq<char>, similar: (int, int), is_retry: bool) -> Seq<
    InsightText,
> {
    if similar.0 > 0 && !is_retry {
        seq![
            (
                "info"@,
                "Similar to '"@ + template + "' - "@ + decimal(similar.1) + "/"@ + decimal(similar.0)
                    + " succeeded recently."@,
            ),
        ]
    } else {
        Seq::empty()
    }
}

/// What is said of a streak that has reached the threshold.
pub open spec fn streak_insights(streak: Option<Streak>, threshold: i64) -> Seq<InsightText> {
    match streak {
        Some(s) => if s.current_streak >= threshold {
            seq![
                (
                    "info"@,
                    "Streak: "@ + decimal(s.current_streak as int) + " successes in a row. Solid."@,
                ),
            ]
        } else if s.current_streak <= -threshold {
            seq![
                (
                    "warning"@,
                    "Failing streak: "@ + decimal(
                        if s.current_streak < 0 {
                            -s.current_streak
                        } else {
                            s.current_streak as int
                        },
                    ) + ". Same approach?"@,
                ),
            ]
        } else {
            Seq::empty()
        },
        None => Seq::empty(),
    }
}

/// The long-term record of a fingerprint: how often it ran, the sum of
/// the weights of its runs, of those that timed out and of those that
/// exited with 0, and the sum of their durations.
pub struct PatternStats {
    pub observations: usize,
    pub weighted_total: u128,
    pub timeout_weight: u128,
    pub success_weight: u128,
    pub duration_total: u128,
}

pub open spec fn pattern_runs(rows: Seq<ObservationText>, hash: Seq<char>) -> nat {
    tally(rows, |o: ObservationText| one_if(o.command_hash == hash))
}

pub open spec fn pattern_weight(rows: Seq<ObservationText>, hash: Seq<char>) -> nat {
    tally(
        rows,
        |o: ObservationText|
            if o.command_hash == hash {
                o.weight as nat
            } else {
                0
            },
    )
}

pub open spec fn pattern_timeout_weight(rows: Seq<ObservationText>, hash: Seq<char>) -> nat {
    tally(
        rows,
        |o: ObservationText|
            if o.command_hash == hash && o.timed_out {
                o.weight as nat
            } else {
                0
            },
    )
}

pub open spec fn pattern_success_weight(rows: Seq<ObservationText>, hash: Seq<char>) -> nat {
    tally(
        rows,
        |o: ObservationText|
            if o.command_hash == hash && o.exit_code == 0 {
                o.weight as nat
            } else {
                0
            },
    )
}

pub open spec fn pattern_duration(rows: Seq<ObservationText>, hash: Seq<char>) -> nat {
    tally(
        rows,
        |o: ObservationText|
            if o.command_hash == hash {
                o.duration_ms as nat
            } else {
                0
            },
    )
}

/// The weight by which shares are measured: the sum of the weights, or
/// one full weight where that is 0.
pub open spec fn share_base(weighted_total: int) -> int {
    if weighted_total > 0 {
        weighted_total
    } else {
        1_000_000
    }
}

/// What is said of the long-term record of a fingerprint: that it often
/// times out, or is reliable, and that it usually takes long; or that
/// there is no record.
pub open spec fn pattern_insights(
    runs: int,
    weighted_total: int,
    timeout_weight: int,
    success_weight: int,
    duration_total: int,
) -> Seq<InsightText> {
    let base = share_base(weighted_total);
    if runs == 0 {
        seq![("info"@, "New pattern. No history yet."@)]
    } else {
        (if 2 * timeout_weight > base {
            seq![
                (
                    "warning"@,
                    decimal(nearest(100 * timeout_weight, base))
                        + "% timeout rate for this pattern."@,
                ),
            ]
        } else if 10 * success_weight > 9 * base && runs >= 5 {
            seq![
                (
                    "info"@,
                    "Reliable pattern: "@ + decimal(nearest(100 * success_weight, base))
                        + "% success ("@ + decimal(runs) + " runs)."@,
                ),
            ]
        } else {
            Seq::empty()
        }) + (if duration_total > 10_000 * runs {
            seq![
                (
                    "info"@,
                    "Usually takes ~"@ + decimal(nearest(duration_total, 1000 * runs))
                        + "s."@,
                ),
            ]
        } else {
            Seq::empty()
        })
    }
}

/// The table of options on record for a program: that of the last row
/// that names it.
pub open spec fn cached_options(rows: Seq<ManoptText>, base: Seq<char>) -> Option<Seq<char>>
    decreases rows.len(),
{
    if rows.len() == 0 {
        None
    } else if rows.last().base_command == base {
        Some(rows.last().options_text)
    } else {
        cached_options(rows.drop_last(), base)
    }
}

/// What is shown after a command of a template has failed at least twice
/// in a row: the options of its program, where they are on record.
pub open spec fn manopt_insights(fail_count: int, base: Seq<char>, rows: Seq<ManoptText>) -> Seq<
    InsightText,
> {
    if fail_count >= 2 && base.len() > 0 {
        match cached_options(rows, base) {
            Some(options) => seq![("info"@, "Options for '"@ + base + "':\n"@ + options)],
            None => Seq::empty(),
        }
    } else {
        Seq::empty()
    }
}

impl Store {
    /// The long-term record of a fingerprint; `None` where it never ran.
    pub fn get_pattern_stats(&self, command_hash: &str) -> (r: Option<PatternStats>)
        ensures
            match r {
                Some(s) => {
                    &&& s.observations == pattern_runs(self@.observations, command_hash@)
                    &&& s.observations > 0
                    &&& s.weighted_total == pattern_weight(self@.observations, command_hash@)
                    &&& s.timeout_weight == pattern_timeout_weight(
                        self@.observations,
                        command_hash@,
                    )
                    &&& s.success_weight == pattern_success_weight(
                        self@.observations,
                        command_hash@,
                    )
                    &&& s.duration_total == pattern_duration(self@.observations, command_hash@)
                    &&& s.timeout_weight <= s.weighted_total
                    &&& s.success_weight <= s.weighted_total
                    &&& s.weighted_total <= s.observations * 0xffff_ffff
                    &&& s.duration_total <= s.observations * 0xffff_ffff_ffff_ffff
                },
                None => pattern_runs(self@.observations, command_hash@) == 0,
            },
    {
        let wanted = chars_of(command_hash);
        let ghost all = self@.observations;
        let mut runs: usize = 0;
        let mut weight: u128 = 0;
        let mut timeouts: u128 = 0;
        let mut successes: u128 = 0;
        let mut duration: u128 = 0;
        let mut i: usize = 0;
        assert(all.take(0) =~= Seq::<ObservationText>::empty());
        while i < self.observations.len()
            invariant
                i <= self.observations.len(),
                wanted@ == command_hash@,
                all == self@.observations,
                runs == pattern_runs(all.take(i as int), command_hash@),
                weight == pattern_weight(all.take(i as int), command_hash@),
                timeouts == pattern_timeout_weight(all.take(i as int), command_hash@),
                successes == pattern_success_weight(all.take(i as int), command_hash@),
                duration == pattern_duration(all.take(i as int), command_hash@),
                runs <= i,
                timeouts <= weight,
                successes <= weight,
                weight <= runs * 0xffff_ffff,
                duration <= runs * 0xffff_ffff_ffff_ffff,
            decreases self.observations.len() - i,
        {
            assert(all.take(i + 1).drop_last() =~= all.take(i as int));
            assert(all.take(i + 1).last() == self.observations@[i as int]@);
            let row = &self.observations[i];
            if same_chars(&chars_of(row.command_hash.as_str()), &wanted) {
                assert((runs + 1) * 0xffff_ffff == runs * 0xffff_ffff + 0xffff_ffff)
                    by (nonlinear_arith);
                assert((runs + 1) * 0xffff_ffff_ffff_ffff == runs * 0xffff_ffff_ffff_ffff
                    + 0xffff_ffff_ffff_ffff) by (nonlinear_arith);
                assert(runs * 0xffff_ffff_ffff_ffff <= 0xffff_ffff_ffff_ffff
                    * 0xffff_ffff_ffff_ffff) by (nonlinear_arith)
                    requires
                        runs <= 0xffff_ffff_ffff_ffff,
                ;
                assert(runs * 0xffff_ffff <= 0xffff_ffff_ffff_ffff * 0xffff_ffff)
                    by (nonlinear_arith)
                    requires
                        runs <= 0xffff_ffff_ffff_ffff,
                ;
                runs += 1;
                weight += row.weight as u128;
                duration += row.duration_ms as u128;
                if row.timed_out {
                    timeouts += row.weight as u128;
                }
                if row.exit_code == 0 {
                    successes += row.weight as u128;
                }
            }
            i += 1;
        }
        assert(all.take(self.observations.len() as int) =~= all);
        if runs == 0 {
            None
        } else {
            Some(
                PatternStats {
                    observations: runs,
                    weighted_total: weight,
                    timeout_weight: timeouts,
                    success_weight: successes,
                    duration_total: duration,
                },
            )
        }
    }

    /// The table of options on record for a program.
    pub fn get_cached_manopt(&self, base_command: &str) -> (r: Option<String>)
        ensures
            crate::text::text_of(r) == cached_options(self@.manopt_cache, base_command@),
    {
        let wanted = chars_of(base_command);
        let ghost all = self@.manopt_cache;
        let mut n: usize = self.manopt_cache.len();
        assert(all.take(n as int) =~= all);
        while n > 0
            invariant
                n <= self.manopt_cache.len(),
                wanted@ == base_command@,
                all == self@.manopt_cache,
                cached_options(all, base_command@) == cached_options(
                    all.take(n as int),
                    base_command@,
                ),
            decreases n,
        {
            assert(all.take(n as int).drop_last() =~= all.take(n - 1));
            assert(all.take(n as int).last() == self.manopt_cache@[n - 1]@);
            let row = &self.manopt_cache[n - 1];
            if same_chars(&chars_of(row.base_command.as_str()), &wanted) {
                return Some(row.options_text.clone());
            }
            n -= 1;
        }
        None
    }
}


/// What is said of a command before it runs, from what the store holds
/// at `now`: of earlier tries within the window, of similar commands, of
/// its streak, of its long-term record, of its host if it is an `ssh`
/// command, and the options of its program after repeated failures.
pub open spec fn pre_insights(
    store: StoreText,
    command: Seq<char>,
    session_id: Seq<char>,
    streak_threshold: i64,
    window_minutes: u64,
    now: u64,
) -> Seq<InsightText> {
    let hash = fingerprint(command);
    let template = template_of(command);
    let tries = exact_runs(store.recent_commands, hash, now, window_minutes) as int;
    let similar = similar_runs(store.recent_commands, template, hash, now, window_minutes, 5);
    retry_insights(
        tries,
        exact_successes(store.recent_commands, hash, now, window_minutes) as int,
        window_minutes,
    ) + similar_insights(template, (similar.0 as int, similar.1 as int), tries > 0)
        + streak_insights(streak_of(store.streaks, hash), streak_threshold) + pattern_insights(
        pattern_runs(store.observations, hash) as int,
        pattern_weight(store.observations, hash) as int,
        pattern_timeout_weight(store.observations, hash) as int,
        pattern_success_weight(store.observations, hash) as int,
        pattern_duration(store.observations, hash) as int,
    ) + ssh_insights(store.ssh_observations, command) + manopt_insights(
        trailing_failures(store.recent_commands, session_id, template, 10) as int,
        base_command(command),
        store.manopt_cache,
    )
}

fn add_retry_insights(
    insights: &mut Vec<(String, String)>,
    count: usize,
    successes: usize,
    window_minutes: u64,
)
    requires
        successes <= count,
    ensures
        insight_texts(final(insights)@) == insight_texts(old(insights)@) + retry_insights(
            count as int,
            successes as int,
            window_minutes,
        ),
{
    let ghost before = insight_texts(insights@);
    let ghost said = retry_insights(count as int, successes as int, window_minutes);
    let failures: usize = count - successes;
    if count == 0 {
        assert(insight_texts(insights@) =~= before + said);
    } else if failures > 0 && successes == 0 {
        let mut message = chars_of("Retry #");
        extend_count(&mut message, (count as u128) + 1);
        extend_str(&mut message, ". Previous ");
        extend_count(&mut message, failures as u128);
        extend_str(&mut message, " all failed. Different approach?");
        push_insight(insights, "warning", &message);
        assert(insight_texts(insights@) =~= before + said);
    } else if successes > 0 && failures == 0 {
        let mut message = chars_of("Retry #");
        extend_count(&mut message, (count as u128) + 1);
        extend_str(&mut message, ". Previous ");
        extend_count(&mut message, successes as u128);
        extend_str(&mut message, " succeeded.");
        push_insight(insights, "info", &message);
        assert(insight_texts(insights@) =~= before + said);
    } else {
        let mut message = chars_of("Retry #");
        extend_count(&mut message, (count as u128) + 1);
        extend_str(&mut message, " in last ");
        extend_count(&mut message, window_minutes as u128);
        extend_str(&mut message, "m. ");
        extend_count(&mut message, successes as u128);
        extend_str(&mut message, "/");
        extend_count(&mut message, count as u128);
        extend_str(&mut message, " succeeded.");
        push_insight(insights, "info", &message);
        assert(insight_texts(insights@) =~= before + said);
    }
}

fn add_similar_insights(
    insights: &mut Vec<(String, String)>,
    template: &str,
    count: usize,
    successes: usize,
    is_retry: bool,
)
    ensures
        insight_texts(final(insights)@) == insight_texts(old(insights)@) + similar_insights(
            template@,
            (count as int, successes as int),
            is_retry,
        ),
{
    let ghost before = insight_texts(insights@);
    let ghost said = similar_insights(template@, (count as int, successes as int), is_retry);
    if count > 0 && !is_retry {
        let mut message = chars_of("Similar to '");
        extend_str(&mut message, template);
        extend_str(&mut message, "' - ");
        extend_count(&mut message, successes as u128);
        extend_str(&mut message, "/");
        extend_count(&mut message, count as u128);
        extend_str(&mut message, " succeeded recently.");
        push_insight(insights, "info", &message);
        assert(insight_texts(insights@) =~= before + said);
    } else {
        assert(insight_texts(insights@) =~= before + said);
    }
}

fn add_streak_insights(insights: &mut Vec<(String, String)>, current: Option<i64>, threshold: i64)
    ensures
        insight_texts(final(insights)@) == insight_texts(old(insights)@) + (match current {
            Some(c) => streak_insights(
                Some(
                    Streak {
                        current_streak: c,
                        longest_success_streak: 0,
                        longest_fail_streak: 0,
                        last_result: true,
                    },
                ),
                threshold,
            ),
            None => Seq::empty(),
        }),
{
    let ghost before = insight_texts(insights@);
    match current {
        Some(c) => {
            if c >= threshold {
                let mut message = chars_of("Streak: ");
                extend_decimal(&mut message, c);
                extend_str(&mut message, " successes in a row. Solid.");
                push_insight(insights, "info", &message);
                assert(insight_texts(insights@) =~= before + seq![("info"@, message@)]);
            } else if (c as i128) <= -(threshold as i128) {
                let size: u128 = if c < 0 {
                    (-(c as i128)) as u128
                } else {
                    c as u128
                };
                let mut message = chars_of("Failing streak: ");
                extend_count(&mut message, size);
                extend_str(&mut message, ". Same approach?");
                push_insight(insights, "warning", &message);
                assert(insight_texts(insights@) =~= before + seq![("warning"@, message@)]);
            } else {
                assert(insight_texts(insights@) =~= before + Seq::<InsightText>::empty());
            }
        },
        None => {
            assert(insight_texts(insights@) =~= before + Seq::<InsightText>::empty());
        },
    }
}

fn add_pattern_insights(insights: &mut Vec<(String, String)>, stats: &Option<PatternStats>)
    requires
        stats matches Some(s) ==> s.observations > 0 && s.timeout_weight <= s.weighted_total
            && s.success_weight <= s.weighted_total && s.weighted_total <= s.observations
            * 0xffff_ffff && s.duration_total <= s.observations * 0xffff_ffff_ffff_ffff,
    ensures
        insight_texts(final(insights)@) == insight_texts(old(insights)@) + (match *stats {
            Some(s) => pattern_insights(
                s.observations as int,
                s.weighted_total as int,
                s.timeout_weight as int,
                s.success_weight as int,
                s.duration_total as int,
            ),
            None => pattern_insights(0, 0, 0, 0, 0),
        }),
{
    let ghost before = insight_texts(insights@);
    match stats {
        None => {
            push_insight(insights, "info", &chars_of("New pattern. No history yet."));
            assert(insight_texts(insights@) =~= before + pattern_insights(0, 0, 0, 0, 0));
        },
        Some(s) => {
            let ghost said = pattern_insights(
                s.observations as int,
                s.weighted_total as int,
                s.timeout_weight as int,
                s.success_weight as int,
                s.duration_total as int,
            );
            assert(s.observations * 0xffff_ffff <= 0xffff_ffff_ffff_ffff * 0xffff_ffff)
                by (nonlinear_arith)
                requires
                    s.observations <= 0xffff_ffff_ffff_ffff,
            ;
            let runs: u128 = s.observations as u128;
            let base: u128 = if s.weighted_total > 0 {
                s.weighted_total
            } else {
                1_000_000
            };
            let ghost first: Seq<InsightText>;
            if 2 * s.timeout_weight > base {
                let mut message: Vec<char> = Vec::new();
                extend_count(&mut message, round_ratio(100 * s.timeout_weight, base));
                extend_str(&mut message, "% timeout rate for this pattern.");
                push_insight(insights, "warning", &message);
                proof {
                    first = seq![("warning"@, message@)];
                }
            } else if 10 * s.success_weight > 9 * base && s.observations >= 5 {
                let mut message = chars_of("Reliable pattern: ");
                extend_count(&mut message, round_ratio(100 * s.success_weight, base));
                extend_str(&mut message, "% success (");
                extend_count(&mut message, runs);
                extend_str(&mut message, " runs).");
                push_insight(insights, "info", &message);
                proof {
                    first = seq![("info"@, message@)];
                }
            } else {
                proof {
                    first = Seq::empty();
                }
            }
            assert(insight_texts(insights@) =~= before + first);
            if s.duration_total > 10_000 * runs {
                let mut message = chars_of("Usually takes ~");
                extend_count(&mut message, round_ratio(s.duration_total, 1000 * runs));
                extend_str(&mut message, "s.");
                push_insight(insights, "info", &message);
                assert(insight_texts(insights@) =~= before + (first + seq![("info"@, message@)]));
                assert(insight_texts(insights@) =~= before + said);
            } else {
                assert(insight_texts(insights@) =~= before + (first + Seq::<InsightText>::empty()));
                assert(insight_texts(insights@) =~= before + said);
            }
        },
    }
}

fn extend_insights(insights: &mut Vec<(String, String)>, more: &Vec<(String, String)>)
    ensures
        insight_texts(final(insights)@) == insight_texts(old(insights)@) + insight_texts(more@),
{
    let ghost before = insight_texts(insights@);
    let mut i: usize = 0;
    assert(insight_texts(insights@) =~= before + insight_texts(more@).take(0));
    while i < more.len()
        invariant
            i <= more.len(),
            insight_texts(insights@) == before + insight_texts(more@).take(i as int),
        decreases more.len() - i,
    {
        let level = more[i].0.clone();
        let message = more[i].1.clone();
        proof {
            lemma_insight_texts_push(insights@, level, message);
        }
        insights.push((level, message));
        assert(insight_texts(insights@) =~= before + insight_texts(more@).take(i + 1));
        i += 1;
    }
    assert(insight_texts(more@).take(more.len() as int) =~= insight_texts(more@));
}

/// What is said of a command before it runs, from what the store holds at `now`.
pub fn get_pre_insights_at(
    store: &Store,
    command: &str,
    session_id: &str,
    streak_threshold: i64,
    recent_window_minutes: u64,
    now: u64,
) -> (r: Vec<(String, String)>)
    ensures
        insight_texts(r@) == pre_insights(
            store@,
            command@,
            session_id@,
            streak_threshold,
            recent_window_minutes,
            now,
        ),
{
    let mut insights: Vec<(String, String)> = Vec::new();
    assert(insight_texts(insights@) =~= Seq::<InsightText>::empty());
    let command_hash = hash_command(command);
    let command_template = template_command(command);
    let exact = store.get_recent_exact(command_hash.as_str(), now, recent_window_minutes);
    let similar = store.get_recent_similar(
        command_template.as_str(),
        command_hash.as_str(),
        now,
        recent_window_minutes,
    );
    add_retry_insights(&mut insights, exact.0, exact.1, recent_window_minutes);
    add_similar_insights(
        &mut insights,
        command_template.as_str(),
        similar.0,
        similar.1,
        exact.0 > 0,
    );
    let current: Option<i64> = match store.get_streak(command_hash.as_str()) {
        Some(s) => Some(s.0),
        None => None,
    };
    add_streak_insights(&mut insights, current, streak_threshold);
    let stats = store.get_pattern_stats(command_hash.as_str());
    add_pattern_insights(&mut insights, &stats);
    extend_insights(&mut insights, &get_ssh_insights(store, command));
    let ghost before = insight_texts(insights@);
    let fail_count = store.get_template_fail_count(session_id, command_template.as_str());
    let base = extract_base_command(command);
    let ghost last = manopt_insights(fail_count as int, base@, store@.manopt_cache);
    if fail_count >= 2 && !base.as_str().is_empty() {
        match store.get_cached_manopt(base.as_str()) {
            Some(options) => {
                let mut message = chars_of("Options for '");
                extend_str(&mut message, base.as_str());
                extend_str(&mut message, "':\n");
                extend_str(&mut message, options.as_str());
                push_insight(&mut insights, "info", &message);
                assert(insight_texts(insights@) =~= before + last);
            },
            None => {
                assert(insight_texts(insights@) =~= before + last);
            },
        }
    } else {
        assert(insight_texts(insights@) =~= before + last);
    }
    insights
}

/// What is said of a command before it runs, from what the store holds
/// at the time the clock shows.
pub fn get_pre_insights(
    store: &Store,
    command: &str,
    session_id: &str,
    streak_threshold: i64,
    recent_window_minutes: u64,
) -> (r: Vec<(String, String)>)
    ensures
        exists|now: u64|
            insight_texts(r@) == #[trigger] pre_insights(
                store@,
                command@,
                session_id@,
                streak_threshold,
                recent_window_minutes,
                now,
            ),
{
    let now = now_micros();
    get_pre_insights_at(store, command, session_id, streak_threshold, recent_window_minutes, now)
}

} // verus!
