pub mod hash;
pub mod insights;
pub mod manopt;
pub mod pipeline;
pub mod prune;
pub mod ssh;
pub mod stats;
pub mod store;
pub mod streak;

use crate::alan::hash::{fingerprint, hash_command, template_command, template_of};
use crate::alan::pipeline::{parse_pipeline, pipeline_segments};
use crate::alan::ssh::{
    classify_ssh_exit, parse_ssh_command, ssh_exit_of, ssh_exit_word, ssh_parse,
};
use crate::alan::store::{
    bump_streak, lemma_observation_texts_push, lemma_recent_texts_push, lemma_ssh_texts_push,
    Observation, observation_texts, ObservationText, recent_texts, RecentCommand, RecentText,
    ssh_texts, SshObservation, SshRowText, Store, StoreText, streaks_after, StreakText,
};
use crate::clock::{fresh_id, now_micros, now_rfc3339};
use crate::text::{chars_of, same_chars, slice_chars, string_of, text_of, texts};
use vstd::prelude::*;

verus! {

/// The first `n` characters of `s`, or all of a shorter one.
pub open spec fn front(s: Seq<char>, n: int) -> Seq<char> {
    if s.len() <= n {
        s
    } else {
        s.take(n)
    }
}

/// What is kept of a command to show it: its first 200 characters.
pub open spec fn preview_of(command: Seq<char>) -> Seq<char> {
    front(command, 200)
}

/// What is kept of the output: its first 500 characters, nothing where
/// there was none.
pub open spec fn snippet_of(output: Seq<char>) -> Option<Seq<char>> {
    if output.len() == 0 {
        None
    } else {
        Some(front(output, 500))
    }
}

/// A run counts as a success if it exited with 0 and was not killed.
pub open spec fn is_success(exit_code: i32, timed_out: bool) -> bool {
    exit_code == 0 && !timed_out
}

/// The weight of a new observation.
pub open spec fn full_weight() -> u32 {
    1_000_000
}

/// A run of a command, as it is handed to `record_at`.
pub struct Run {
    pub session_id: Seq<char>,
    pub command: Seq<char>,
    pub exit_code: i32,
    pub duration_ms: u64,
    pub timed_out: bool,
    pub stdout_snippet: Seq<char>,
    pub pipestatus: Seq<i32>,
    /// The window of recent activity, in minutes.
    pub recent_window_minutes: u64,
    /// The time of recording, in microseconds since the epoch.
    pub now: u64,
    /// The time of recording, as text.
    pub now_iso: Seq<char>,
    /// The ids for the new rows: the observation's, the `ssh` row's,
    /// then one for each segment.
    pub ids: Seq<Seq<char>>,
}

/// The segments that are recorded beside the whole command: those of a
/// pipeline with one exit code for each of them.
pub open spec fn recorded_segments(run: Run) -> Seq<Seq<char>> {
    if run.pipestatus.len() > 1 && pipeline_segments(run.command).len() == run.pipestatus.len() {
        pipeline_segments(run.command)
    } else {
        Seq::empty()
    }
}

pub open spec fn main_observation(run: Run) -> ObservationText {
    ObservationText {
        id: picked(run.ids, 0),
        command_hash: fingerprint(run.command),
        command_template: template_of(run.command),
        command_preview: preview_of(run.command),
        exit_code: run.exit_code,
        duration_ms: run.duration_ms,
        timed_out: run.timed_out,
        output_snippet: snippet_of(run.stdout_snippet),
        weight: full_weight(),
        created_at: run.now_iso,
    }
}

pub open spec fn segment_observation(run: Run, k: int) -> ObservationText {
    let segment = recorded_segments(run)[k];
    ObservationText {
        id: picked(run.ids, 1 + k),
        command_hash: fingerprint(segment),
        command_template: template_of(segment),
        command_preview: preview_of(segment),
        exit_code: run.pipestatus[k],
        duration_ms: 0,
        timed_out: false,
        output_snippet: None,
        weight: full_weight(),
        created_at: run.now_iso,
    }
}

pub open spec fn main_recent(run: Run) -> RecentText {
    RecentText {
        session_id: run.session_id,
        command_hash: fingerprint(run.command),
        command_template: template_of(run.command),
        command_preview: preview_of(run.command),
        timestamp: run.now,
        duration_ms: run.duration_ms,
        exit_code: run.exit_code,
        timed_out: run.timed_out,
        success: is_success(run.exit_code, run.timed_out),
    }
}

pub open spec fn segment_recent(run: Run, k: int) -> RecentText {
    let segment = recorded_segments(run)[k];
    RecentText {
        session_id: run.session_id,
        command_hash: fingerprint(segment),
        command_template: template_of(segment),
        command_preview: preview_of(segment),
        timestamp: run.now,
        duration_ms: 0,
        exit_code: run.pipestatus[k],
        timed_out: false,
        success: run.pipestatus[k] == 0,
    }
}

/// The observations that a run adds: one for the command, one for each
/// recorded segment.
pub open spec fn new_observations(run: Run) -> Seq<ObservationText> {
    seq![main_observation(run)] + Seq::new(
        recorded_segments(run).len(),
        |k: int| segment_observation(run, k),
    )
}

/// The rows of recent activity that a run adds.
pub open spec fn new_recent(run: Run) -> Seq<RecentText> {
    seq![main_recent(run)] + Seq::new(recorded_segments(run).len(), |k: int| segment_recent(run, k))
}

/// The row that is added for a run of an `ssh` command; nothing for any
/// other command.
pub open spec fn ssh_rows_for(
    id: Seq<char>,
    observation_id: Seq<char>,
    command: Seq<char>,
    exit_code: i32,
    duration_ms: u64,
    timed_out: bool,
    now_iso: Seq<char>,
) -> Seq<SshRowText> {
    match ssh_parse(command) {
        Some(info) => seq![
            SshRowText {
                id,
                observation_id,
                host: info.host,
                remote_command: match info.remote_command {
                    Some(c) => Some(preview_of(c)),
                    None => None,
                },
                remote_command_template: match info.remote_command {
                    Some(c) => Some(template_of(c)),
                    None => None,
                },
                exit_code,
                exit_type: ssh_exit_word(ssh_exit_of(exit_code as int)),
                duration_ms,
                timed_out,
                weight: full_weight(),
                created_at: now_iso,
            },
        ],
        None => Seq::empty(),
    }
}

/// The `ssh` row that a run adds, if its command is an `ssh` command.
pub open spec fn new_ssh(run: Run) -> Seq<SshRowText> {
    ssh_rows_for(
        run.ids[1],
        picked(run.ids, 0),
        run.command,
        run.exit_code,
        run.duration_ms,
        run.timed_out,
        run.now_iso,
    )
}

/// How long a row of recent activity is kept: ten times the window of
/// recent activity, in microseconds.
pub open spec fn recent_span(window_minutes: u64) -> int {
    10 * window_minutes * 60_000_000
}

/// The rows of recent activity that are not older than the span at `now`.
pub open spec fn fresh_enough(rows: Seq<RecentText>, window_minutes: u64, now: u64) -> Seq<
    RecentText,
>
    decreases rows.len(),
{
    if rows.len() == 0 {
        Seq::empty()
    } else if rows.last().timestamp + recent_span(window_minutes) >= now {
        fresh_enough(rows.drop_last(), window_minutes, now).push(rows.last())
    } else {
        fresh_enough(rows.drop_last(), window_minutes, now)
    }
}

/// The fingerprints whose streaks a run changes, each with its result:
/// the command's, then those of the recorded segments.
pub open spec fn streak_runs(run: Run) -> Seq<(Seq<char>, bool)> {
    seq![(fingerprint(run.command), is_success(run.exit_code, run.timed_out))] + Seq::new(
        recorded_segments(run).len(),
        |k: int| (fingerprint(recorded_segments(run)[k]), run.pipestatus[k] == 0),
    )
}

/// The streaks after a series of runs at `now`.
pub open spec fn streaks_after_runs(
    rows: Seq<StreakText>,
    runs: Seq<(Seq<char>, bool)>,
    now: u64,
) -> Seq<StreakText>
    decreases runs.len(),
{
    if runs.len() == 0 {
        rows
    } else {
        streaks_after(
            streaks_after_runs(rows, runs.drop_last(), now),
            runs.last().0,
            runs.last().1,
            now,
        )
    }
}

/// Whether an observation has the id `id`.
pub open spec fn has_observation(rows: Seq<ObservationText>, id: Seq<char>) -> bool {
    exists|i: int| 0 <= i < rows.len() && (#[trigger] rows[i]).id == id
}

/// Whether an `ssh` row has the id `id`.
pub open spec fn has_ssh_row(rows: Seq<SshRowText>, id: Seq<char>) -> bool {
    exists|i: int| 0 <= i < rows.len() && (#[trigger] rows[i]).id == id
}

/// No two observations have the same id.
pub open spec fn distinct_ids(rows: Seq<ObservationText>) -> bool {
    forall|i: int, j: int| 0 <= i < j < rows.len() ==> rows[i].id != rows[j].id
}

/// The id of the `k`-th observation that is added: the first of `ids`
/// for the command, those from the third on for the segments.
pub open spec fn picked(ids: Seq<Seq<char>>, k: int) -> Seq<char> {
    if k == 0 {
        ids[0]
    } else {
        ids[1 + k]
    }
}

/// Whether `ids` can be used for a run with `segments` recorded
/// segments: there are enough, no new observation gets an id that the
/// store or another new observation has, and the `ssh` row, if there is
/// one, gets an id that no `ssh` row has.
pub open spec fn ids_fit_for(store: StoreText, ids: Seq<Seq<char>>, segments: int, is_ssh: bool) -> bool {
    &&& ids.len() >= 2 + segments
    &&& forall|a: int, b: int|
        0 <= a < b <= segments ==> #[trigger] picked(ids, a) != #[trigger] picked(ids, b)
    &&& forall|k: int|
        0 <= k <= segments ==> !has_observation(store.observations, #[trigger] picked(ids, k))
    &&& is_ssh ==> !has_ssh_row(store.ssh_observations, ids[1])
}

/// Whether the ids of a run can be used.
pub open spec fn ids_usable(store: StoreText, run: Run) -> bool {
    ids_fit_for(
        store,
        run.ids,
        recorded_segments(run).len() as int,
        ssh_parse(run.command) is Some,
    )
}

/// The store after a run was recorded.
pub open spec fn recorded(store: StoreText, run: Run) -> StoreText {
    StoreText {
        observations: store.observations + new_observations(run),
        recent_commands: fresh_enough(
            store.recent_commands + new_recent(run),
            run.recent_window_minutes,
            run.now,
        ),
        streaks: streaks_after_runs(store.streaks, streak_runs(run), run.now),
        ssh_observations: store.ssh_observations + new_ssh(run),
        manopt_cache: store.manopt_cache,
        last_prune: store.last_prune,
    }
}


/// Why a run was not recorded.
#[derive(Debug, PartialEq, Eq)]
pub enum RecordError {
    /// The ids handed in are too few, or one of them is taken.
    IdsNotUsable,
}

fn front_chars(v: &Vec<char>, n: usize) -> (r: Vec<char>)
    ensures
        r@ == front(v@, n as int),
{
    if v.len() <= n {
        crate::text::copy_chars(v)
    } else {
        let r = slice_chars(v, 0, n);
        assert(v@.subrange(0, n as int) =~= v@.take(n as int));
        r
    }
}

fn front_of(s: &str, n: usize) -> (r: String)
    ensures
        r@ == front(s@, n as int),
{
    string_of(&front_chars(&chars_of(s), n))
}

fn observation_known(rows: &Vec<Observation>, id: &str) -> (r: bool)
    ensures
        r == has_observation(observation_texts(rows@), id@),
{
    let wanted = chars_of(id);
    let mut i: usize = 0;
    while i < rows.len()
        invariant
            i <= rows.len(),
            wanted@ == id@,
            forall|k: int| 0 <= k < i ==> (#[trigger] observation_texts(rows@)[k]).id != id@,
        decreases rows.len() - i,
    {
        if same_chars(&chars_of(rows[i].id.as_str()), &wanted) {
            assert(observation_texts(rows@)[i as int].id == id@);
            return true;
        }
        i += 1;
    }
    false
}

fn ssh_row_known(rows: &Vec<SshObservation>, id: &str) -> (r: bool)
    ensures
        r == has_ssh_row(ssh_texts(rows@), id@),
{
    let wanted = chars_of(id);
    let mut i: usize = 0;
    while i < rows.len()
        invariant
            i <= rows.len(),
            wanted@ == id@,
            forall|k: int| 0 <= k < i ==> (#[trigger] ssh_texts(rows@)[k]).id != id@,
        decreases rows.len() - i,
    {
        if same_chars(&chars_of(rows[i].id.as_str()), &wanted) {
            assert(ssh_texts(rows@)[i as int].id == id@);
            return true;
        }
        i += 1;
    }
    false
}

/// The id of the `k`-th new observation among `ids`.
fn nth_id(ids: &Vec<String>, k: usize) -> (r: &String)
    requires
        k + 2 <= ids.len(),
    ensures
        r@ == picked(texts(ids@), k as int),
{
    if k == 0 {
        &ids[0]
    } else {
        &ids[1 + k]
    }
}

fn ids_fit(store: &Store, ids: &Vec<String>, segments: usize, is_ssh: bool) -> (r: bool)
    ensures
        r == ids_fit_for(store@, texts(ids@), segments as int, is_ssh),
{
    if ids.len() < 2 || ids.len() - 2 < segments {
        return false;
    }
    if is_ssh && ssh_row_known(&store.ssh_observations, ids[1].as_str()) {
        return false;
    }
    let ghost all = texts(ids@);
    let mut b: usize = 0;
    while b <= segments
        invariant
            b <= segments + 1,
            ids.len() >= 2 + segments,
            all == texts(ids@),
            forall|x: int, y: int|
                0 <= x < y < b ==> #[trigger] picked(all, x) != #[trigger] picked(all, y),
            forall|k: int|
                0 <= k < b ==> !has_observation(store@.observations, #[trigger] picked(all, k)),
        decreases segments + 1 - b,
    {
        let id = nth_id(ids, b);
        if observation_known(&store.observations, id.as_str()) {
            return false;
        }
        let wanted = chars_of(id.as_str());
        let mut a: usize = 0;
        while a < b
            invariant
                a <= b <= segments,
                ids.len() >= 2 + segments,
                all == texts(ids@),
                wanted@ == picked(all, b as int),
                forall|x: int| 0 <= x < a ==> #[trigger] picked(all, x) != picked(all, b as int),
            decreases b - a,
        {
            let other = nth_id(ids, a);
            if same_chars(&chars_of(other.as_str()), &wanted) {
                return false;
            }
            a += 1;
        }
        b += 1;
    }
    true
}


fn keep_fresh(rows: &Vec<RecentCommand>, window_minutes: u64, now: u64) -> (r: Vec<RecentCommand>)
    ensures
        recent_texts(r@) == fresh_enough(recent_texts(rows@), window_minutes, now),
{
    let ghost all = recent_texts(rows@);
    let span: u128 = 10 * (window_minutes as u128) * 60_000_000;
    let mut kept: Vec<RecentCommand> = Vec::new();
    let mut i: usize = 0;
    assert(recent_texts(kept@) =~= fresh_enough(all.take(0), window_minutes, now));
    while i < rows.len()
        invariant
            i <= rows.len(),
            all == recent_texts(rows@),
            span == recent_span(window_minutes),
            recent_texts(kept@) == fresh_enough(all.take(i as int), window_minutes, now),
        decreases rows.len() - i,
    {
        assert(all.take(i + 1).drop_last() =~= all.take(i as int));
        assert(all.take(i + 1).last() == rows@[i as int]@);
        let row = &rows[i];
        if (row.timestamp as u128) + span >= (now as u128) {
            let copy = RecentCommand {
                session_id: row.session_id.clone(),
                command_hash: row.command_hash.clone(),
                command_template: row.command_template.clone(),
                command_preview: row.command_preview.clone(),
                timestamp: row.timestamp,
                duration_ms: row.duration_ms,
                exit_code: row.exit_code,
                timed_out: row.timed_out,
                success: row.success,
            };
            proof {
                lemma_recent_texts_push(kept@, copy);
            }
            kept.push(copy);
        }
        i += 1;
    }
    assert(all.take(rows.len() as int) =~= all);
    kept
}

fn option_front(s: &Option<String>, n: usize) -> (r: Option<String>)
    ensures
        text_of(r) == match text_of(*s) {
            Some(c) => Some(front(c, n as int)),
            None => None,
        },
{
    match s {
        Some(c) => Some(front_of(c.as_str(), n)),
        None => None,
    }
}

fn option_template(s: &Option<String>) -> (r: Option<String>)
    ensures
        text_of(r) == match text_of(*s) {
            Some(c) => Some(template_of(c)),
            None => None,
        },
{
    match s {
        Some(c) => Some(template_command(c.as_str())),
        None => None,
    }
}

/// Adds the row for a run of an `ssh` command, under the id `id` and
/// beside the observation `observation_id`: the host, the remote command
/// and its template, and how the exit code is read. Any other command
/// adds nothing.
pub fn record_ssh(
    store: &mut Store,
    id: &str,
    observation_id: &str,
    command: &str,
    exit_code: i32,
    duration_ms: u64,
    timed_out: bool,
    now_iso: &str,
)
    ensures
        final(store)@ == (StoreText {
            ssh_observations: old(store)@.ssh_observations + ssh_rows_for(
                id@,
                observation_id@,
                command@,
                exit_code,
                duration_ms,
                timed_out,
                now_iso@,
            ),
            ..old(store)@
        }),
{
    let ghost before = store@;
    let ghost added = ssh_rows_for(
        id@,
        observation_id@,
        command@,
        exit_code,
        duration_ms,
        timed_out,
        now_iso@,
    );
    match parse_ssh_command(command) {
        Some(info) => {
            let row = SshObservation {
                id: id.to_owned(),
                observation_id: observation_id.to_owned(),
                host: info.host.clone(),
                remote_command: option_front(&info.remote_command, 200),
                remote_command_template: option_template(&info.remote_command),
                exit_code,
                exit_type: classify_ssh_exit(exit_code).to_owned(),
                duration_ms,
                timed_out,
                weight: 1_000_000,
                created_at: now_iso.to_owned(),
            };
            assert(seq![row@] =~= added);
            proof {
                lemma_ssh_texts_push(store.ssh_observations@, row);
            }
            store.ssh_observations.push(row);
            assert(store@.ssh_observations =~= before.ssh_observations + added);
        },
        None => {
            assert(store@.ssh_observations =~= before.ssh_observations + added);
        },
    }
}

/// Records a run at the time `now`, with the ids handed in: one
/// observation and one row of recent activity for the command and for
/// each segment of its pipeline, the streaks of their fingerprints, and
/// a row for an `ssh` command; rows of recent activity that are older
/// than ten times the window of recent activity are dropped. Nothing is
/// recorded where the ids cannot be used.
pub fn record_at(
    store: &mut Store,
    session_id: &str,
    command: &str,
    exit_code: i32,
    duration_ms: u64,
    timed_out: bool,
    stdout_snippet: &str,
    pipestatus: &[i32],
    recent_window_minutes: u64,
    now: u64,
    now_iso: &str,
    ids: &Vec<String>,
) -> (r: Result<(), RecordError>)
    ensures
        ({
            let run = Run {
                session_id: session_id@,
                command: command@,
                exit_code,
                duration_ms,
                timed_out,
                stdout_snippet: stdout_snippet@,
                pipestatus: pipestatus@,
                recent_window_minutes,
                now,
                now_iso: now_iso@,
                ids: texts(ids@),
            };
            match r {
                Ok(_) => ids_usable(old(store)@, run) && final(store)@ == recorded(
                    old(store)@,
                    run,
                ),
                Err(_) => !ids_usable(old(store)@, run) && final(store)@ == old(store)@,
            }
        }),
{
    let ghost run = Run {
        session_id: session_id@,
        command: command@,
        exit_code,
        duration_ms,
        timed_out,
        stdout_snippet: stdout_snippet@,
        pipestatus: pipestatus@,
        recent_window_minutes,
        now,
        now_iso: now_iso@,
        ids: texts(ids@),
    };
    let ghost before = store@;
    let mut segments: Vec<String> = Vec::new();
    assert(texts(segments@) =~= Seq::<Seq<char>>::empty());
    if pipestatus.len() > 1 {
        let parsed = parse_pipeline(command);
        if parsed.len() == pipestatus.len() {
            segments = parsed;
        }
    }
    assert(texts(segments@) == recorded_segments(run));
    let ssh = parse_ssh_command(command);
    if !ids_fit(store, ids, segments.len(), ssh.is_some()) {
        return Err(RecordError::IdsNotUsable);
    }
    let command_hash = hash_command(command);
    let success = exit_code == 0 && !timed_out;
    let observation = Observation {
        id: ids[0].clone(),
        command_hash: command_hash.clone(),
        command_template: template_command(command),
        command_preview: front_of(command, 200),
        exit_code,
        duration_ms,
        timed_out,
        output_snippet: if stdout_snippet.is_empty() {
            None
        } else {
            Some(front_of(stdout_snippet, 500))
        },
        weight: 1_000_000,
        created_at: now_iso.to_owned(),
    };
    assert(observation@ == main_observation(run));
    proof {
        lemma_observation_texts_push(store.observations@, observation);
    }
    store.observations.push(observation);
    let recent = RecentCommand {
        session_id: session_id.to_owned(),
        command_hash: command_hash.clone(),
        command_template: template_command(command),
        command_preview: front_of(command, 200),
        timestamp: now,
        duration_ms,
        exit_code,
        timed_out,
        success,
    };
    assert(recent@ == main_recent(run));
    proof {
        lemma_recent_texts_push(store.recent_commands@, recent);
    }
    store.recent_commands.push(recent);
    bump_streak(&mut store.streaks, command_hash.as_str(), success, now);
    let ghost runs = streak_runs(run);
    proof {
        assert(runs.take(1).drop_last() =~= Seq::<(Seq<char>, bool)>::empty());
        assert(runs.take(1).last() == (fingerprint(command@), success));
        assert(streaks_after_runs(before.streaks, runs.take(1).drop_last(), now)
            == before.streaks);
        assert(store@.streaks == streaks_after_runs(before.streaks, runs.take(1), now));
    }
    record_ssh(
        store,
        ids[1].as_str(),
        ids[0].as_str(),
        command,
        exit_code,
        duration_ms,
        timed_out,
        now_iso,
    );
    assert(runs.take(1).drop_last() =~= Seq::<(Seq<char>, bool)>::empty());
    assert(store@.observations =~= before.observations + new_observations(run).take(1));
    assert(store@.recent_commands =~= before.recent_commands + new_recent(run).take(1));
    let mut k: usize = 0;
    while k < segments.len()
        invariant
            k <= segments.len(),
            segments.len() + 2 <= ids.len(),
            texts(segments@) == recorded_segments(run),
            segments.len() > 0 ==> segments.len() == pipestatus.len(),
            runs == streak_runs(run),
            run.ids == texts(ids@),
            run.pipestatus == pipestatus@,
            run.now == now,
            run.now_iso == now_iso@,
            run.session_id == session_id@,
            store@.observations == before.observations + new_observations(run).take(1 + k),
            store@.recent_commands == before.recent_commands + new_recent(run).take(1 + k),
            store@.streaks == streaks_after_runs(before.streaks, runs.take(1 + k), now),
            store@.ssh_observations == before.ssh_observations + new_ssh(run),
            store@.manopt_cache == before.manopt_cache,
            store@.last_prune == before.last_prune,
        decreases segments.len() - k,
    {
        let segment = segments[k].as_str();
        assert(segment@ == recorded_segments(run)[k as int]);
        let segment_hash = hash_command(segment);
        let segment_exit: i32 = pipestatus[k];
        let observation = Observation {
            id: ids[2 + k].clone(),
            command_hash: segment_hash.clone(),
            command_template: template_command(segment),
            command_preview: front_of(segment, 200),
            exit_code: segment_exit,
            duration_ms: 0,
            timed_out: false,
            output_snippet: None,
            weight: 1_000_000,
            created_at: now_iso.to_owned(),
        };
        assert(observation@ == segment_observation(run, k as int));
        proof {
            lemma_observation_texts_push(store.observations@, observation);
        }
        store.observations.push(observation);
        let recent = RecentCommand {
            session_id: session_id.to_owned(),
            command_hash: segment_hash.clone(),
            command_template: template_command(segment),
            command_preview: front_of(segment, 200),
            timestamp: now,
            duration_ms: 0,
            exit_code: segment_exit,
            timed_out: false,
            success: segment_exit == 0,
        };
        assert(recent@ == segment_recent(run, k as int));
        proof {
            lemma_recent_texts_push(store.recent_commands@, recent);
        }
        store.recent_commands.push(recent);
        bump_streak(&mut store.streaks, segment_hash.as_str(), segment_exit == 0, now);
        proof {
            assert(new_observations(run).take(2 + k) =~= new_observations(run).take(1 + k).push(
                segment_observation(run, k as int),
            ));
            assert(new_recent(run).take(2 + k) =~= new_recent(run).take(1 + k).push(
                segment_recent(run, k as int),
            ));
            assert(runs.take(2 + k).drop_last() =~= runs.take(1 + k));
            assert(runs.take(2 + k).last() == (fingerprint(segment@), segment_exit == 0));
            assert(store@.observations =~= before.observations + new_observations(run).take(
                2 + k,
            ));
            assert(store@.recent_commands =~= before.recent_commands + new_recent(run).take(
                2 + k,
            ));
        }
        k += 1;
    }
    proof {
        assert(new_observations(run).take(1 + segments.len()) =~= new_observations(run));
        assert(new_recent(run).take(1 + segments.len()) =~= new_recent(run));
        assert(runs.take(1 + segments.len()) =~= runs);
    }
    store.recent_commands = keep_fresh(&store.recent_commands, recent_window_minutes, now);
    Ok(())
}


/// Whether `after` is what recording `run` makes of `before`: the run
/// recorded where its ids can be used and `done` says so, nothing
/// changed where they cannot.
pub open spec fn is_recording(before: StoreText, after: StoreText, done: bool, run: Run) -> bool {
    if done {
        ids_usable(before, run) && after == recorded(before, run)
    } else {
        !ids_usable(before, run) && after == before
    }
}

/// The run that is recorded at `now` under `ids`.
pub open spec fn run_at(
    session_id: Seq<char>,
    command: Seq<char>,
    exit_code: i32,
    duration_ms: u64,
    timed_out: bool,
    stdout_snippet: Seq<char>,
    pipestatus: Seq<i32>,
    recent_window_minutes: u64,
    now: u64,
    now_iso: Seq<char>,
    ids: Seq<Seq<char>>,
) -> Run {
    Run {
        session_id,
        command,
        exit_code,
        duration_ms,
        timed_out,
        stdout_snippet,
        pipestatus,
        recent_window_minutes,
        now,
        now_iso,
        ids,
    }
}

/// Records a run at the time the clock shows, under ids drawn at random:
/// two and one for each exit code. What is recorded is what `record_at`
/// records for that time and those ids.
pub fn record(
    store: &mut Store,
    session_id: &str,
    command: &str,
    exit_code: i32,
    duration_ms: u64,
    timed_out: bool,
    stdout_snippet: &str,
    pipestatus: &[i32],
    recent_window_minutes: u64,
) -> (r: Result<(), RecordError>)
    ensures
        exists|now: u64, now_iso: Seq<char>, ids: Seq<Seq<char>>|
            ids.len() == 2 + pipestatus@.len() && is_recording(
                old(store)@,
                final(store)@,
                r is Ok,
                #[trigger] run_at(
                    session_id@,
                    command@,
                    exit_code,
                    duration_ms,
                    timed_out,
                    stdout_snippet@,
                    pipestatus@,
                    recent_window_minutes,
                    now,
                    now_iso,
                    ids,
                ),
            ),
{
    let now = now_micros();
    let now_iso = now_rfc3339();
    let mut ids: Vec<String> = Vec::new();
    ids.push(fresh_id());
    ids.push(fresh_id());
    let mut k: usize = 0;
    while k < pipestatus.len()
        invariant
            k <= pipestatus.len(),
            ids@.len() == 2 + k,
        decreases pipestatus.len() - k,
    {
        ids.push(fresh_id());
        k += 1;
    }
    let r = record_at(
        store,
        session_id,
        command,
        exit_code,
        duration_ms,
        timed_out,
        stdout_snippet,
        pipestatus,
        recent_window_minutes,
        now,
        now_iso.as_str(),
        &ids,
    );
    assert(texts(ids@).len() == 2 + pipestatus@.len() && is_recording(
        old(store)@,
        store@,
        r is Ok,
        run_at(
            session_id@,
            command@,
            exit_code,
            duration_ms,
            timed_out,
            stdout_snippet@,
            pipestatus@,
            recent_window_minutes,
            now,
            now_iso@,
            texts(ids@),
        ),
    ));
    r
}

impl StoreText {
    /// No two observations have the same id, and the sign of each streak
    /// matches its latest result.
    pub open spec fn wf(self) -> bool {
        &&& distinct_ids(self.observations)
        &&& forall|i: int| 0 <= i < self.streaks.len() ==> (#[trigger] self.streaks[i]).streak.wf()
    }
}

impl Store {
    /// An empty store.
    pub fn new() -> (r: Self)
        ensures
            r@.wf(),
            r@.observations.len() == 0,
            r@.recent_commands.len() == 0,
            r@.streaks.len() == 0,
            r@.ssh_observations.len() == 0,
            r@.manopt_cache.len() == 0,
            r@.last_prune is None,
    {
        Store {
            observations: Vec::new(),
            recent_commands: Vec::new(),
            streaks: Vec::new(),
            ssh_observations: Vec::new(),
            manopt_cache: Vec::new(),
            last_prune: None,
        }
    }
}

/// An empty store: every table is there and holds nothing, and no
/// pruning is on record.
pub fn init_schema() -> (r: Store)
    ensures
        r@.wf(),
        r@.observations.len() == 0,
        r@.recent_commands.len() == 0,
        r@.streaks.len() == 0,
        r@.ssh_observations.len() == 0,
        r@.manopt_cache.len() == 0,
        r@.last_prune is None,
{
    Store::new()
}

pub proof fn lemma_streak_rows_stay_wf(
    rows: Seq<StreakText>,
    hash: Seq<char>,
    success: bool,
    now: u64,
)
    requires
        forall|i: int| 0 <= i < rows.len() ==> (#[trigger] rows[i]).streak.wf(),
    ensures
        forall|i: int|
            0 <= i < streaks_after(rows, hash, success, now).len() ==> (#[trigger] streaks_after(
                rows,
                hash,
                success,
                now,
            )[i]).streak.wf(),
{
    lemma_updated_rows_stay_wf(rows, hash, success, now);
    crate::alan::streak::lemma_update_keeps_wf(None, success);
    let after = streaks_after(rows, hash, success, now);
    assert forall|i: int| 0 <= i < after.len() implies (#[trigger] after[i]).streak.wf() by {
        if crate::alan::store::streak_of(rows, hash) is None {
            if i < rows.len() {
                assert(after[i] == rows[i]);
            }
        }
    }
}

pub proof fn lemma_updated_rows_stay_wf(
    rows: Seq<StreakText>,
    hash: Seq<char>,
    success: bool,
    now: u64,
)
    requires
        forall|i: int| 0 <= i < rows.len() ==> (#[trigger] rows[i]).streak.wf(),
    ensures
        forall|i: int|
            0 <= i < crate::alan::store::streak_updated(rows, hash, success, now).len() ==> (
            #[trigger] crate::alan::store::streak_updated(rows, hash, success, now)[i]).streak.wf(),
    decreases rows.len(),
{
    if rows.len() > 0 {
        let front = rows.drop_last();
        assert forall|i: int| 0 <= i < front.len() implies (#[trigger] front[i]).streak.wf() by {
            assert(front[i] == rows[i]);
        }
        let after = crate::alan::store::streak_updated(rows, hash, success, now);
        if rows.last().command_hash == hash {
            crate::alan::streak::lemma_update_keeps_wf(Some(rows.last().streak), success);
            assert forall|i: int| 0 <= i < after.len() implies (#[trigger] after[i]).streak.wf() by {
                if i < front.len() {
                    assert(after[i] == front[i]);
                }
            }
        } else {
            lemma_updated_rows_stay_wf(front, hash, success, now);
            let inner = crate::alan::store::streak_updated(front, hash, success, now);
            assert forall|i: int| 0 <= i < after.len() implies (#[trigger] after[i]).streak.wf() by {
                if i < inner.len() {
                    assert(after[i] == inner[i]);
                } else {
                    assert(after[i] == rows.last());
                }
            }
        }
    }
}

pub proof fn lemma_runs_keep_streaks_wf(rows: Seq<StreakText>, runs: Seq<(Seq<char>, bool)>, now: u64)
    requires
        forall|i: int| 0 <= i < rows.len() ==> (#[trigger] rows[i]).streak.wf(),
    ensures
        forall|i: int|
            0 <= i < streaks_after_runs(rows, runs, now).len() ==> (#[trigger] streaks_after_runs(
                rows,
                runs,
                now,
            )[i]).streak.wf(),
    decreases runs.len(),
{
    if runs.len() > 0 {
        lemma_runs_keep_streaks_wf(rows, runs.drop_last(), now);
        lemma_streak_rows_stay_wf(
            streaks_after_runs(rows, runs.drop_last(), now),
            runs.last().0,
            runs.last().1,
            now,
        );
    }
}

/// Recording keeps the store well formed: every observation has an id of
/// its own, and the sign of each streak matches its latest result.
pub proof fn lemma_record_keeps_wf(store: StoreText, run: Run)
    requires
        store.wf(),
        ids_usable(store, run),
    ensures
        recorded(store, run).wf(),
{
    let after = recorded(store, run);
    let fresh = new_observations(run);
    assert forall|i: int, j: int| 0 <= i < j < after.observations.len() implies after.observations[i].id
        != after.observations[j].id by {
        let n = store.observations.len() as int;
        if j < n {
        } else if i >= n {
            assert(fresh[i - n].id == picked(run.ids, i - n));
            assert(fresh[j - n].id == picked(run.ids, j - n));
        } else {
            assert(fresh[j - n].id == picked(run.ids, j - n));
            assert(!has_observation(store.observations, picked(run.ids, j - n)));
            assert(store.observations[i].id != picked(run.ids, j - n));
        }
    }
    lemma_runs_keep_streaks_wf(store.streaks, streak_runs(run), run.now);
}


pub proof fn lemma_streak_on_record_is_wf(rows: Seq<StreakText>, hash: Seq<char>)
    requires
        forall|i: int| 0 <= i < rows.len() ==> (#[trigger] rows[i]).streak.wf(),
    ensures
        crate::alan::store::streak_of(rows, hash) matches Some(s) ==> s.wf(),
    decreases rows.len(),
{
    if rows.len() > 0 && rows.last().command_hash != hash {
        let front = rows.drop_last();
        assert forall|i: int| 0 <= i < front.len() implies (#[trigger] front[i]).streak.wf() by {
            assert(front[i] == rows[i]);
        }
        lemma_streak_on_record_is_wf(front, hash);
    }
}

/// After a command that ran alone and succeeded is recorded, the recent
/// activity has one new row, which counts as a success, and the current
/// streak of the command's fingerprint is at least 1.
pub proof fn lemma_success_is_recorded(store: StoreText, run: Run)
    requires
        store.wf(),
        ids_usable(store, run),
        run.exit_code == 0,
        !run.timed_out,
        run.pipestatus.len() <= 1,
    ensures
        recorded(store, run).recent_commands == fresh_enough(
            store.recent_commands,
            run.recent_window_minutes,
            run.now,
        ).push(
            main_recent(run),
        ),
        main_recent(run).success,
        main_recent(run).command_hash == fingerprint(run.command),
        crate::alan::store::streak_of(recorded(store, run).streaks, fingerprint(run.command))
            matches Some(s) && s.current_streak >= 1,
{
    let fp = fingerprint(run.command);
    assert(new_recent(run) =~= seq![main_recent(run)]);
    let all = store.recent_commands + new_recent(run);
    assert(all.drop_last() =~= store.recent_commands);
    assert(all.last() == main_recent(run));
    let runs = streak_runs(run);
    assert(runs =~= seq![(fp, true)]);
    assert(runs.drop_last() =~= Seq::<(Seq<char>, bool)>::empty());
    assert(streaks_after_runs(store.streaks, runs.drop_last(), run.now) == store.streaks);
    crate::alan::store::lemma_streaks_after(store.streaks, fp, true, run.now, fp);
    lemma_streak_on_record_is_wf(store.streaks, fp);
}

/// A pipeline of `n` segments that is recorded with `n` exit codes adds
/// `n + 1` observations: one for the whole command, one for each segment.
pub proof fn lemma_pipeline_observations(store: StoreText, run: Run)
    requires
        run.pipestatus.len() >= 2,
        run.pipestatus.len() == pipeline_segments(run.command).len(),
    ensures
        recorded(store, run).observations.len() == store.observations.len() + pipeline_segments(
            run.command,
        ).len() + 1,
        recorded(store, run).recent_commands.len() <= store.recent_commands.len()
            + pipeline_segments(run.command).len() + 1,
{
    lemma_fresh_enough_len(
        store.recent_commands + new_recent(run),
        run.recent_window_minutes,
        run.now,
    );
}

/// A command that is no pipeline, or whose exit codes do not match its
/// segments, adds one observation.
pub proof fn lemma_single_observation(store: StoreText, run: Run)
    requires
        run.pipestatus.len() <= 1 || run.pipestatus.len() != pipeline_segments(run.command).len(),
    ensures
        recorded(store, run).observations.len() == store.observations.len() + 1,
{
}

pub proof fn lemma_fresh_enough_len(rows: Seq<RecentText>, window_minutes: u64, now: u64)
    ensures
        fresh_enough(rows, window_minutes, now).len() <= rows.len(),
    decreases rows.len(),
{
    if rows.len() > 0 {
        lemma_fresh_enough_len(rows.drop_last(), window_minutes, now);
    }
}

} // verus!
