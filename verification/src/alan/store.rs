use crate::alan::streak::{Streak, streak_after, update_streak};
use crate::text::{chars_of, same_chars, text_of};
use vstd::prelude::*;

verus! {

/// A run of a command, kept for the long term. `weight` is held in
/// millionths; a new observation weighs 1 000 000.
pub struct Observation {
    pub id: String,
    pub command_hash: String,
    pub command_template: String,
    pub command_preview: String,
    pub exit_code: i32,
    pub duration_ms: u64,
    pub timed_out: bool,
    pub output_snippet: Option<String>,
    pub weight: u32,
    pub created_at: String,
}

/// A run of a command in the window of recent activity. `timestamp` is
/// held in microseconds since the epoch.
pub struct RecentCommand {
    pub session_id: String,
    pub command_hash: String,
    pub command_template: String,
    pub command_preview: String,
    pub timestamp: u64,
    pub duration_ms: u64,
    pub exit_code: i32,
    pub timed_out: bool,
    pub success: bool,
}

/// The streak of a fingerprint.
pub struct StreakRow {
    pub command_hash: String,
    pub streak: Streak,
    pub last_updated: u64,
}

/// A run of an `ssh` command, beside its observation.
pub struct SshObservation {
    pub id: String,
    pub observation_id: String,
    pub host: String,
    pub remote_command: Option<String>,
    pub remote_command_template: Option<String>,
    pub exit_code: i32,
    pub exit_type: String,
    pub duration_ms: u64,
    pub timed_out: bool,
    pub weight: u32,
    pub created_at: String,
}

/// The table of options of a program, as last read from its manual page.
pub struct ManoptEntry {
    pub base_command: String,
    pub options_text: String,
    pub created_at: String,
}

/// What has been learnt of the commands that were run.
pub struct Store {
    pub observations: Vec<Observation>,
    pub recent_commands: Vec<RecentCommand>,
    pub streaks: Vec<StreakRow>,
    pub ssh_observations: Vec<SshObservation>,
    pub manopt_cache: Vec<ManoptEntry>,
    /// When the store was last pruned.
    pub last_prune: Option<String>,
}

/// An `Observation` as plain values.
pub struct ObservationText {
    pub id: Seq<char>,
    pub command_hash: Seq<char>,
    pub command_template: Seq<char>,
    pub command_preview: Seq<char>,
    pub exit_code: i32,
    pub duration_ms: u64,
    pub timed_out: bool,
    pub output_snippet: Option<Seq<char>>,
    pub weight: u32,
    pub created_at: Seq<char>,
}

/// A `RecentCommand` as plain values.
pub struct RecentText {
    pub session_id: Seq<char>,
    pub command_hash: Seq<char>,
    pub command_template: Seq<char>,
    pub command_preview: Seq<char>,
    pub timestamp: u64,
    pub duration_ms: u64,
    pub exit_code: i32,
    pub timed_out: bool,
    pub success: bool,
}

/// A `StreakRow` as plain values.
pub struct StreakText {
    pub command_hash: Seq<char>,
    pub streak: Streak,
    pub last_updated: u64,
}

/// An `SshObservation` as plain values.
pub struct SshRowText {
    pub id: Seq<char>,
    pub observation_id: Seq<char>,
    pub host: Seq<char>,
    pub remote_command: Option<Seq<char>>,
    pub remote_command_template: Option<Seq<char>>,
    pub exit_code: i32,
    pub exit_type: Seq<char>,
    pub duration_ms: u64,
    pub timed_out: bool,
    pub weight: u32,
    pub created_at: Seq<char>,
}

/// A `ManoptEntry` as plain values.
pub struct ManoptText {
    pub base_command: Seq<char>,
    pub options_text: Seq<char>,
    pub created_at: Seq<char>,
}

impl View for Observation {
    type V = ObservationText;

    open spec fn view(&self) -> ObservationText {
        ObservationText {
            id: self.id@,
            command_hash: self.command_hash@,
            command_template: self.command_template@,
            command_preview: self.command_preview@,
            exit_code: self.exit_code,
            duration_ms: self.duration_ms,
            timed_out: self.timed_out,
            output_snippet: text_of(self.output_snippet),
            weight: self.weight,
            created_at: self.created_at@,
        }
    }
}

impl View for RecentCommand {
    type V = RecentText;

    open spec fn view(&self) -> RecentText {
        RecentText {
            session_id: self.session_id@,
            command_hash: self.command_hash@,
            command_template: self.command_template@,
            command_preview: self.command_preview@,
            timestamp: self.timestamp,
            duration_ms: self.duration_ms,
            exit_code: self.exit_code,
            timed_out: self.timed_out,
            success: self.success,
        }
    }
}

impl View for StreakRow {
    type V = StreakText;

    open spec fn view(&self) -> StreakText {
        StreakText {
            command_hash: self.command_hash@,
            streak: self.streak,
            last_updated: self.last_updated,
        }
    }
}

impl View for SshObservation {
    type V = SshRowText;

    open spec fn view(&self) -> SshRowText {
        SshRowText {
            id: self.id@,
            observation_id: self.observation_id@,
            host: self.host@,
            remote_command: text_of(self.remote_command),
            remote_command_template: text_of(self.remote_command_template),
            exit_code: self.exit_code,
            exit_type: self.exit_type@,
            duration_ms: self.duration_ms,
            timed_out: self.timed_out,
            weight: self.weight,
            created_at: self.created_at@,
        }
    }
}

impl View for ManoptEntry {
    type V = ManoptText;

    open spec fn view(&self) -> ManoptText {
        ManoptText {
            base_command: self.base_command@,
            options_text: self.options_text@,
            created_at: self.created_at@,
        }
    }
}

/// The store as plain values.
pub struct StoreText {
    pub observations: Seq<ObservationText>,
    pub recent_commands: Seq<RecentText>,
    pub streaks: Seq<StreakText>,
    pub ssh_observations: Seq<SshRowText>,
    pub manopt_cache: Seq<ManoptText>,
    pub last_prune: Option<Seq<char>>,
}

pub open spec fn observation_texts(v: Seq<Observation>) -> Seq<ObservationText> {
    Seq::new(v.len(), |i: int| v[i]@)
}

pub open spec fn recent_texts(v: Seq<RecentCommand>) -> Seq<RecentText> {
    Seq::new(v.len(), |i: int| v[i]@)
}

pub open spec fn streak_texts(v: Seq<StreakRow>) -> Seq<StreakText> {
    Seq::new(v.len(), |i: int| v[i]@)
}

pub open spec fn ssh_texts(v: Seq<SshObservation>) -> Seq<SshRowText> {
    Seq::new(v.len(), |i: int| v[i]@)
}

pub open spec fn manopt_texts(v: Seq<ManoptEntry>) -> Seq<ManoptText> {
    Seq::new(v.len(), |i: int| v[i]@)
}

impl View for Store {
    type V = StoreText;

    open spec fn view(&self) -> StoreText {
        StoreText {
            observations: observation_texts(self.observations@),
            recent_commands: recent_texts(self.recent_commands@),
            streaks: streak_texts(self.streaks@),
            ssh_observations: ssh_texts(self.ssh_observations@),
            manopt_cache: manopt_texts(self.manopt_cache@),
            last_prune: text_of(self.last_prune),
        }
    }
}

pub proof fn lemma_observation_texts_push(v: Seq<Observation>, o: Observation)
    ensures
        observation_texts(v.push(o)) == observation_texts(v).push(o@),
{
    assert(observation_texts(v.push(o)) =~= observation_texts(v).push(o@));
}

pub proof fn lemma_recent_texts_push(v: Seq<RecentCommand>, o: RecentCommand)
    ensures
        recent_texts(v.push(o)) == recent_texts(v).push(o@),
{
    assert(recent_texts(v.push(o)) =~= recent_texts(v).push(o@));
}

pub proof fn lemma_streak_texts_push(v: Seq<StreakRow>, o: StreakRow)
    ensures
        streak_texts(v.push(o)) == streak_texts(v).push(o@),
{
    assert(streak_texts(v.push(o)) =~= streak_texts(v).push(o@));
}

pub proof fn lemma_ssh_texts_push(v: Seq<SshObservation>, o: SshObservation)
    ensures
        ssh_texts(v.push(o)) == ssh_texts(v).push(o@),
{
    assert(ssh_texts(v.push(o)) =~= ssh_texts(v).push(o@));
}

/// The streak on record for the fingerprint `hash`: that of the last row
/// that names it.
pub open spec fn streak_of(rows: Seq<StreakText>, hash: Seq<char>) -> Option<Streak>
    decreases rows.len(),
{
    if rows.len() == 0 {
        None
    } else if rows.last().command_hash == hash {
        Some(rows.last().streak)
    } else {
        streak_of(rows.drop_last(), hash)
    }
}

/// The rows with the last row of the fingerprint `hash` brought up to
/// date after a run at `now`.
pub open spec fn streak_updated(rows: Seq<StreakText>, hash: Seq<char>, success: bool, now: u64) -> Seq<
    StreakText,
>
    decreases rows.len(),
{
    if rows.len() == 0 {
        rows
    } else if rows.last().command_hash == hash {
        rows.drop_last().push(
            StreakText {
                command_hash: hash,
                streak: streak_after(Some(rows.last().streak), success),
                last_updated: now,
            },
        )
    } else {
        streak_updated(rows.drop_last(), hash, success, now).push(rows.last())
    }
}

/// The rows after a run of the fingerprint `hash` at `now`: its row is
/// brought up to date, or added at the end where it had none.
pub open spec fn streaks_after(rows: Seq<StreakText>, hash: Seq<char>, success: bool, now: u64) -> Seq<
    StreakText,
> {
    if streak_of(rows, hash) is None {
        rows.push(
            StreakText {
                command_hash: hash,
                streak: streak_after(None, success),
                last_updated: now,
            },
        )
    } else {
        streak_updated(rows, hash, success, now)
    }
}

pub proof fn lemma_streak_updated(
    rows: Seq<StreakText>,
    hash: Seq<char>,
    success: bool,
    now: u64,
    other: Seq<char>,
)
    ensures
        streak_updated(rows, hash, success, now).len() == rows.len(),
        streak_of(rows, hash) is Some ==> streak_of(
            streak_updated(rows, hash, success, now),
            hash,
        ) == Some(streak_after(streak_of(rows, hash), success)),
        other != hash ==> streak_of(streak_updated(rows, hash, success, now), other) == streak_of(
            rows,
            other,
        ),
    decreases rows.len(),
{
    if rows.len() > 0 {
        let after = streak_updated(rows, hash, success, now);
        if rows.last().command_hash == hash {
            assert(after.drop_last() =~= rows.drop_last());
            assert(after.last().command_hash == hash);
        } else {
            lemma_streak_updated(rows.drop_last(), hash, success, now, other);
            assert(after.drop_last() =~= streak_updated(rows.drop_last(), hash, success, now));
            assert(after.last() == rows.last());
        }
    }
}

/// After a run, the streak of the fingerprint is the one that the update
/// rule gives, and the streak of every other fingerprint is as before.
pub proof fn lemma_streaks_after(
    rows: Seq<StreakText>,
    hash: Seq<char>,
    success: bool,
    now: u64,
    other: Seq<char>,
)
    ensures
        streak_of(streaks_after(rows, hash, success, now), hash) == Some(
            streak_after(streak_of(rows, hash), success),
        ),
        other != hash ==> streak_of(streaks_after(rows, hash, success, now), other) == streak_of(
            rows,
            other,
        ),
{
    let after = streaks_after(rows, hash, success, now);
    if streak_of(rows, hash) is None {
        assert(after.drop_last() =~= rows);
        assert(after.last().command_hash == hash);
    } else {
        lemma_streak_updated(rows, hash, success, now, other);
    }
}

/// Brings the streak of a fingerprint up to date after a run.
pub fn bump_streak(rows: &mut Vec<StreakRow>, command_hash: &str, success: bool, now: u64)
    ensures
        streak_texts(final(rows)@) == streaks_after(
            streak_texts(old(rows)@),
            command_hash@,
            success,
            now,
        ),
{
    let wanted = chars_of(command_hash);
    let ghost all = streak_texts(rows@);
    let mut n: usize = rows.len();
    assert(all.take(n as int) =~= all);
    assert(all.skip(n as int) =~= Seq::<StreakText>::empty());
    assert(streak_updated(all, command_hash@, success, now) + Seq::<StreakText>::empty()
        =~= streak_updated(all, command_hash@, success, now));
    while n > 0
        invariant
            n <= rows.len(),
            wanted@ == command_hash@,
            all == streak_texts(rows@),
            rows@ == old(rows)@,
            streak_of(all, command_hash@) == streak_of(all.take(n as int), command_hash@),
            streak_updated(all, command_hash@, success, now) == streak_updated(
                all.take(n as int),
                command_hash@,
                success,
                now,
            ) + all.skip(n as int),
        decreases n,
    {
        let ghost front = all.take(n as int);
        assert(front.last() == rows@[n - 1]@);
        assert(front.drop_last() =~= all.take(n - 1));
        let name = chars_of(rows[n - 1].command_hash.as_str());
        if same_chars(&name, &wanted) {
            let prior = rows[n - 1].streak;
            let updated = StreakRow {
                command_hash: command_hash.to_owned(),
                streak: update_streak(Some(prior), success),
                last_updated: now,
            };
            rows.set(n - 1, updated);
            assert(streak_texts(rows@) =~= all.take(n - 1).push(updated@) + all.skip(n as int));
            return ;
        }
        assert(streak_updated(front, command_hash@, success, now) + all.skip(n as int)
            =~= streak_updated(all.take(n - 1), command_hash@, success, now) + all.skip(n - 1));
        n -= 1;
    }
    let added = StreakRow {
        command_hash: command_hash.to_owned(),
        streak: update_streak(None, success),
        last_updated: now,
    };
    proof {
        lemma_streak_texts_push(rows@, added);
        assert(all.take(0) =~= Seq::<StreakText>::empty());
    }
    rows.push(added);
}


/// The sum of a measure over the rows.
pub open spec fn tally<T>(rows: Seq<T>, measure: spec_fn(T) -> nat) -> nat
    decreases rows.len(),
{
    if rows.len() == 0 {
        0
    } else {
        tally(rows.drop_last(), measure) + measure(rows.last())
    }
}

/// Whether a time lies within the `window_minutes` before `now`.
pub open spec fn in_window(timestamp: u64, now: u64, window_minutes: u64) -> bool {
    timestamp + window_minutes * 60_000_000 > now
}

pub fn within_window(timestamp: u64, now: u64, window_minutes: u64) -> (r: bool)
    ensures
        r == in_window(timestamp, now, window_minutes),
{
    (timestamp as u128) + (window_minutes as u128) * 60_000_000 > (now as u128)
}

/// Whether a row is a run of the fingerprint `hash` within the window.
pub open spec fn is_exact(row: RecentText, hash: Seq<char>, now: u64, window_minutes: u64) -> bool {
    row.command_hash == hash && in_window(row.timestamp, now, window_minutes)
}

/// Whether a row is a run of another fingerprint with the same template
/// within the window.
pub open spec fn is_similar(
    row: RecentText,
    template: Seq<char>,
    hash: Seq<char>,
    now: u64,
    window_minutes: u64,
) -> bool {
    row.command_template == template && row.command_hash != hash && in_window(
        row.timestamp,
        now,
        window_minutes,
    )
}

pub open spec fn one_if(b: bool) -> nat {
    if b {
        1
    } else {
        0
    }
}

/// How many runs of the fingerprint lie within the window.
pub open spec fn exact_runs(rows: Seq<RecentText>, hash: Seq<char>, now: u64, window_minutes: u64) -> nat {
    tally(rows, |row: RecentText| one_if(is_exact(row, hash, now, window_minutes)))
}

/// How many of them succeeded.
pub open spec fn exact_successes(
    rows: Seq<RecentText>,
    hash: Seq<char>,
    now: u64,
    window_minutes: u64,
) -> nat {
    tally(rows, |row: RecentText| one_if(is_exact(row, hash, now, window_minutes) && row.success))
}

/// Among the latest `limit` similar runs: how many there are, and how
/// many of them succeeded.
pub open spec fn similar_runs(
    rows: Seq<RecentText>,
    template: Seq<char>,
    hash: Seq<char>,
    now: u64,
    window_minutes: u64,
    limit: nat,
) -> (nat, nat)
    decreases rows.len(),
{
    if rows.len() == 0 || limit == 0 {
        (0, 0)
    } else if is_similar(rows.last(), template, hash, now, window_minutes) {
        let rest = similar_runs(
            rows.drop_last(),
            template,
            hash,
            now,
            window_minutes,
            (limit - 1) as nat,
        );
        (rest.0 + 1, rest.1 + one_if(rows.last().success))
    } else {
        similar_runs(rows.drop_last(), template, hash, now, window_minutes, limit)
    }
}

/// How many of the latest runs of a template in a session failed, one
/// after the other, looking at the latest `limit` of them.
pub open spec fn trailing_failures(
    rows: Seq<RecentText>,
    session: Seq<char>,
    template: Seq<char>,
    limit: nat,
) -> nat
    decreases rows.len(),
{
    if rows.len() == 0 || limit == 0 {
        0
    } else if rows.last().session_id == session && rows.last().command_template == template {
        if rows.last().success {
            0
        } else {
            1 + trailing_failures(rows.drop_last(), session, template, (limit - 1) as nat)
        }
    } else {
        trailing_failures(rows.drop_last(), session, template, limit)
    }
}

fn text_is(s: &String, wanted: &Vec<char>) -> (r: bool)
    ensures
        r == (s@ == wanted@),
{
    same_chars(&chars_of(s.as_str()), wanted)
}

impl Store {
    /// The runs of a fingerprint within the window: how many, and how
    /// many of them succeeded.
    pub fn get_recent_exact(&self, command_hash: &str, now: u64, window_minutes: u64) -> (r: (
        usize,
        usize,
    ))
        ensures
            r.0 == exact_runs(self@.recent_commands, command_hash@, now, window_minutes),
            r.1 == exact_successes(self@.recent_commands, command_hash@, now, window_minutes),
            r.1 <= r.0 <= self.recent_commands.len(),
    {
        let wanted = chars_of(command_hash);
        let ghost all = self@.recent_commands;
        let mut count: usize = 0;
        let mut successes: usize = 0;
        let mut i: usize = 0;
        assert(all.take(0) =~= Seq::<RecentText>::empty());
        while i < self.recent_commands.len()
            invariant
                i <= self.recent_commands.len(),
                wanted@ == command_hash@,
                all == self@.recent_commands,
                count == exact_runs(all.take(i as int), command_hash@, now, window_minutes),
                successes == exact_successes(all.take(i as int), command_hash@, now, window_minutes),
                successes <= count <= i,
            decreases self.recent_commands.len() - i,
        {
            assert(all.take(i + 1).drop_last() =~= all.take(i as int));
            assert(all.take(i + 1).last() == self.recent_commands@[i as int]@);
            let row = &self.recent_commands[i];
            if text_is(&row.command_hash, &wanted) && within_window(
                row.timestamp,
                now,
                window_minutes,
            ) {
                count += 1;
                if row.success {
                    successes += 1;
                }
            }
            i += 1;
        }
        assert(all.take(self.recent_commands.len() as int) =~= all);
        (count, successes)
    }

    /// The latest five runs of other commands with the same template
    /// within the window: how many, and how many of them succeeded.
    pub fn get_recent_similar(
        &self,
        command_template: &str,
        command_hash: &str,
        now: u64,
        window_minutes: u64,
    ) -> (r: (usize, usize))
        ensures
            (r.0 as nat, r.1 as nat) == similar_runs(
                self@.recent_commands,
                command_template@,
                command_hash@,
                now,
                window_minutes,
                5,
            ),
            r.1 <= r.0 <= 5,
    {
        let template = chars_of(command_template);
        let hash = chars_of(command_hash);
        let ghost all = self@.recent_commands;
        let mut count: usize = 0;
        let mut successes: usize = 0;
        let mut n: usize = self.recent_commands.len();
        assert(all.take(n as int) =~= all);
        while n > 0 && count < 5
            invariant
                n <= self.recent_commands.len(),
                template@ == command_template@,
                hash@ == command_hash@,
                all == self@.recent_commands,
                successes <= count <= 5,
                similar_runs(all, command_template@, command_hash@, now, window_minutes, 5).0
                    == similar_runs(
                    all.take(n as int),
                    command_template@,
                    command_hash@,
                    now,
                    window_minutes,
                    (5 - count) as nat,
                ).0 + count,
                similar_runs(all, command_template@, command_hash@, now, window_minutes, 5).1
                    == similar_runs(
                    all.take(n as int),
                    command_template@,
                    command_hash@,
                    now,
                    window_minutes,
                    (5 - count) as nat,
                ).1 + successes,
            decreases n,
        {
            assert(all.take(n as int).drop_last() =~= all.take(n - 1));
            assert(all.take(n as int).last() == self.recent_commands@[n - 1]@);
            let row = &self.recent_commands[n - 1];
            if text_is(&row.command_template, &template) && !text_is(&row.command_hash, &hash)
                && within_window(row.timestamp, now, window_minutes) {
                count += 1;
                if row.success {
                    successes += 1;
                }
            }
            n -= 1;
        }
        (count, successes)
    }

    /// The streak of a fingerprint: the current run, the longest run of
    /// successes and the longest run of failures.
    pub fn get_streak(&self, command_hash: &str) -> (r: Option<(i64, i64, i64)>)
        ensures
            match r {
                Some(s) => streak_of(self@.streaks, command_hash@) matches Some(streak)
                    && s.0 == streak.current_streak && s.1 == streak.longest_success_streak && s.2
                    == streak.longest_fail_streak,
                None => streak_of(self@.streaks, command_hash@) is None,
            },
    {
        let wanted = chars_of(command_hash);
        let ghost all = self@.streaks;
        let mut n: usize = self.streaks.len();
        assert(all.take(n as int) =~= all);
        while n > 0
            invariant
                n <= self.streaks.len(),
                wanted@ == command_hash@,
                all == self@.streaks,
                streak_of(all, command_hash@) == streak_of(all.take(n as int), command_hash@),
            decreases n,
        {
            assert(all.take(n as int).drop_last() =~= all.take(n - 1));
            assert(all.take(n as int).last() == self.streaks@[n - 1]@);
            let row = &self.streaks[n - 1];
            if text_is(&row.command_hash, &wanted) {
                return Some(
                    (
                        row.streak.current_streak,
                        row.streak.longest_success_streak,
                        row.streak.longest_fail_streak,
                    ),
                );
            }
            n -= 1;
        }
        None
    }

    /// How many of the latest runs of a template in a session failed one
    /// after the other, looking at the latest ten.
    pub fn get_template_fail_count(&self, session_id: &str, template: &str) -> (r: usize)
        ensures
            r == trailing_failures(self@.recent_commands, session_id@, template@, 10),
            r <= 10,
    {
        let session = chars_of(session_id);
        let wanted = chars_of(template);
        let ghost all = self@.recent_commands;
        let mut count: usize = 0;
        let mut n: usize = self.recent_commands.len();
        assert(all.take(n as int) =~= all);
        while n > 0 && count < 10
            invariant
                n <= self.recent_commands.len(),
                session@ == session_id@,
                wanted@ == template@,
                all == self@.recent_commands,
                count <= 10,
                trailing_failures(all, session_id@, template@, 10) == count + trailing_failures(
                    all.take(n as int),
                    session_id@,
                    template@,
                    (10 - count) as nat,
                ),
            decreases n,
        {
            assert(all.take(n as int).drop_last() =~= all.take(n - 1));
            assert(all.take(n as int).last() == self.recent_commands@[n - 1]@);
            let row = &self.recent_commands[n - 1];
            if text_is(&row.session_id, &session) && text_is(&row.command_template, &wanted) {
                if row.success {
                    return count;
                }
                count += 1;
            }
            n -= 1;
        }
        count
    }
}

} // verus!
