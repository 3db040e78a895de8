use crate::alan::hash::{fingerprint, hash_command};
use crate::alan::insights::{
    pattern_duration, pattern_runs, pattern_success_weight, pattern_timeout_weight, pattern_weight,
};
use crate::alan::store::{ObservationText, one_if, RecentText, Store, streak_of, tally};
use crate::text::{chars_of, same_chars};
use vstd::prelude::*;

verus! {

/// What the store holds of a session. Shares and averages are given by
/// their parts: a count and a sum.
pub struct SessionStats {
    pub session_id: String,
    pub total_commands: usize,
    pub successes: usize,
    pub failures: usize,
    pub timeouts: usize,
    /// How many fingerprints ran more than once.
    pub retries: usize,
    /// The sum of the durations, in milliseconds.
    pub duration_total: u128,
}

pub open spec fn session_runs(rows: Seq<RecentText>, session: Seq<char>) -> nat {
    tally(rows, |r: RecentText| one_if(r.session_id == session))
}

pub open spec fn session_successes(rows: Seq<RecentText>, session: Seq<char>) -> nat {
    tally(rows, |r: RecentText| one_if(r.session_id == session && r.success))
}

pub open spec fn session_timeouts(rows: Seq<RecentText>, session: Seq<char>) -> nat {
    tally(rows, |r: RecentText| one_if(r.session_id == session && r.timed_out))
}

pub open spec fn session_duration(rows: Seq<RecentText>, session: Seq<char>) -> nat {
    tally(
        rows,
        |r: RecentText|
            if r.session_id == session {
                r.duration_ms as nat
            } else {
                0
            },
    )
}

/// How often the fingerprint `hash` ran in the session among the first `n` rows.
pub open spec fn earlier_runs(rows: Seq<RecentText>, session: Seq<char>, hash: Seq<char>, n: int) -> nat
    decreases n,
{
    if n <= 0 {
        0
    } else {
        earlier_runs(rows, session, hash, n - 1) + one_if(
            rows[n - 1].session_id == session && rows[n - 1].command_hash == hash,
        )
    }
}

/// How many fingerprints ran a second time in the session among the
/// first `n` rows.
pub open spec fn session_retries(rows: Seq<RecentText>, session: Seq<char>, n: int) -> nat
    decreases n,
{
    if n <= 0 {
        0
    } else {
        session_retries(rows, session, n - 1) + one_if(
            rows[n - 1].session_id == session && earlier_runs(
                rows,
                session,
                rows[n - 1].command_hash,
                n - 1,
            ) == 1,
        )
    }
}

/// What the long-term record says of a command. The shares are given by
/// their parts: the weight of the runs that timed out or succeeded, and
/// the weight of all.
pub struct PatternQueryResult {
    pub known: bool,
    pub observations: Option<usize>,
    pub weighted_total: Option<u128>,
    pub success_weight: Option<u128>,
    pub timeout_weight: Option<u128>,
    /// The sum of the durations, in milliseconds.
    pub duration_total: Option<u128>,
    /// The current streak, the longest of successes and the longest of failures.
    pub streak: Option<(i64, i64, i64)>,
}

fn count_earlier(store: &Store, session: &Vec<char>, hash: &String, n: usize) -> (r: usize)
    requires
        n <= store.recent_commands.len(),
    ensures
        r == earlier_runs(store@.recent_commands, session@, hash@, n as int),
        r <= n,
{
    let wanted = chars_of(hash.as_str());
    let ghost all = store@.recent_commands;
    let mut count: usize = 0;
    let mut j: usize = 0;
    while j < n
        invariant
            j <= n <= store.recent_commands.len(),
            wanted@ == hash@,
            all == store@.recent_commands,
            count == earlier_runs(all, session@, hash@, j as int),
            count <= j,
        decreases n - j,
    {
        let row = &store.recent_commands[j];
        assert(all[j as int] == row@);
        if same_chars(&chars_of(row.session_id.as_str()), session) && same_chars(
            &chars_of(row.command_hash.as_str()),
            &wanted,
        ) {
            count += 1;
        }
        j += 1;
    }
    count
}

/// Whether `stats` is the record of the session among `rows`.
pub open spec fn is_session_record(stats: SessionStats, rows: Seq<RecentText>, session: Seq<char>) -> bool {
    &&& stats.session_id@ == session
    &&& stats.total_commands == session_runs(rows, session)
    &&& stats.successes == session_successes(rows, session)
    &&& stats.failures == stats.total_commands - stats.successes
    &&& stats.timeouts == session_timeouts(rows, session)
    &&& stats.duration_total == session_duration(rows, session)
    &&& stats.retries == session_retries(rows, session, rows.len() as int)
}

/// What the store holds of a session.
pub fn get_session_stats(store: &Store, session_id: &str) -> (r: SessionStats)
    ensures
        is_session_record(r, store@.recent_commands, session_id@),
{
    let session = chars_of(session_id);
    let ghost all = store@.recent_commands;
    let mut total: usize = 0;
    let mut successes: usize = 0;
    let mut timeouts: usize = 0;
    let mut retries: usize = 0;
    let mut duration: u128 = 0;
    let mut i: usize = 0;
    assert(all.take(0) =~= Seq::<RecentText>::empty());
    while i < store.recent_commands.len()
        invariant
            i <= store.recent_commands.len(),
            session@ == session_id@,
            all == store@.recent_commands,
            total == session_runs(all.take(i as int), session_id@),
            successes == session_successes(all.take(i as int), session_id@),
            timeouts == session_timeouts(all.take(i as int), session_id@),
            duration == session_duration(all.take(i as int), session_id@),
            retries == session_retries(all, session_id@, i as int),
            successes <= total <= i,
            timeouts <= total,
            retries <= i,
            duration <= total * 0xffff_ffff_ffff_ffff,
        decreases store.recent_commands.len() - i,
    {
        assert(all.take(i + 1).drop_last() =~= all.take(i as int));
        assert(all.take(i + 1).last() == store.recent_commands@[i as int]@);
        let row = &store.recent_commands[i];
        assert(all[i as int] == row@);
        if same_chars(&chars_of(row.session_id.as_str()), &session) {
            assert((total + 1) * 0xffff_ffff_ffff_ffff == total * 0xffff_ffff_ffff_ffff
                + 0xffff_ffff_ffff_ffff) by (nonlinear_arith);
            assert(total * 0xffff_ffff_ffff_ffff <= 0xffff_ffff_ffff_ffff * 0xffff_ffff_ffff_ffff)
                by (nonlinear_arith)
                requires
                    total <= 0xffff_ffff_ffff_ffff,
            ;
            total += 1;
            duration += row.duration_ms as u128;
            if row.success {
                successes += 1;
            }
            if row.timed_out {
                timeouts += 1;
            }
            if count_earlier(store, &session, &row.command_hash, i) == 1 {
                retries += 1;
            }
        }
        i += 1;
    }
    assert(all.take(store.recent_commands.len() as int) =~= all);
    SessionStats {
        session_id: session_id.to_owned(),
        total_commands: total,
        successes,
        failures: total - successes,
        timeouts,
        retries,
        duration_total: duration,
    }
}

/// What the long-term record says of a command; `known` is false where
/// the command never ran.
pub fn query_pattern(store: &Store, command: &str) -> (r: PatternQueryResult)
    ensures
        r.known == (pattern_runs(store@.observations, fingerprint(command@)) > 0),
        r.known ==> {
            &&& r.observations == Some(
                pattern_runs(store@.observations, fingerprint(command@)) as usize,
            )
            &&& r.weighted_total == Some(
                pattern_weight(store@.observations, fingerprint(command@)) as u128,
            )
            &&& r.success_weight == Some(
                pattern_success_weight(store@.observations, fingerprint(command@)) as u128,
            )
            &&& r.timeout_weight == Some(
                pattern_timeout_weight(store@.observations, fingerprint(command@)) as u128,
            )
            &&& r.duration_total == Some(
                pattern_duration(store@.observations, fingerprint(command@)) as u128,
            )
            &&& match r.streak {
                Some(s) => streak_of(store@.streaks, fingerprint(command@)) matches Some(streak)
                    && s.0 == streak.current_streak && s.1 == streak.longest_success_streak
                    && s.2 == streak.longest_fail_streak,
                None => streak_of(store@.streaks, fingerprint(command@)) is None,
            }
        },
        !r.known ==> r.observations is None && r.weighted_total is None && r.success_weight
            is None && r.timeout_weight is None && r.duration_total is None && r.streak is None,
{
    let command_hash = hash_command(command);
    match store.get_pattern_stats(command_hash.as_str()) {
        Some(stats) => PatternQueryResult {
            known: true,
            observations: Some(stats.observations),
            weighted_total: Some(stats.weighted_total),
            success_weight: Some(stats.success_weight),
            timeout_weight: Some(stats.timeout_weight),
            duration_total: Some(stats.duration_total),
            streak: store.get_streak(command_hash.as_str()),
        },
        None => PatternQueryResult {
            known: false,
            observations: None,
            weighted_total: None,
            success_weight: None,
            timeout_weight: None,
            duration_total: None,
            streak: None,
        },
    }
}


/// Whether `a` comes before `b` in the order of the dictionary, by the
/// code points of their characters.
pub open spec fn comes_before(a: Seq<char>, b: Seq<char>) -> bool
    decreases a.len(),
{
    if b.len() == 0 {
        false
    } else if a.len() == 0 {
        true
    } else if a[0] != b[0] {
        (a[0] as u32) < (b[0] as u32)
    } else {
        comes_before(a.drop_first(), b.drop_first())
    }
}

fn is_before(a: &str, b: &str) -> (r: bool)
    ensures
        r == comes_before(a@, b@),
{
    let x = chars_of(a);
    let y = chars_of(b);
    let mut i: usize = 0;
    assert(x@.skip(0) =~= x@);
    assert(y@.skip(0) =~= y@);
    while i < x.len() && i < y.len()
        invariant
            i <= x.len(),
            i <= y.len(),
            x@ == a@,
            y@ == b@,
            comes_before(a@, b@) == comes_before(x@.skip(i as int), y@.skip(i as int)),
        decreases x.len() - i,
    {
        if x[i] != y[i] {
            return (x[i] as u32) < (y[i] as u32);
        }
        assert(x@.skip(i as int).drop_first() =~= x@.skip(i + 1));
        assert(y@.skip(i as int).drop_first() =~= y@.skip(i + 1));
        i += 1;
    }
    i < y.len()
}

/// The earliest time of creation among the first `n` observations; of
/// equal ones the first.
pub open spec fn oldest_upto(rows: Seq<ObservationText>, n: int) -> Option<Seq<char>>
    decreases n,
{
    if n <= 0 {
        None
    } else {
        match oldest_upto(rows, n - 1) {
            None => Some(rows[n - 1].created_at),
            Some(best) => if comes_before(rows[n - 1].created_at, best) {
                Some(rows[n - 1].created_at)
            } else {
                Some(best)
            },
        }
    }
}

/// The latest time of creation among the first `n` observations.
pub open spec fn newest_upto(rows: Seq<ObservationText>, n: int) -> Option<Seq<char>>
    decreases n,
{
    if n <= 0 {
        None
    } else {
        match newest_upto(rows, n - 1) {
            None => Some(rows[n - 1].created_at),
            Some(best) => if comes_before(best, rows[n - 1].created_at) {
                Some(rows[n - 1].created_at)
            } else {
                Some(best)
            },
        }
    }
}

/// Whether one of the first `n` observations has the fingerprint `hash`.
pub open spec fn hash_seen(rows: Seq<ObservationText>, hash: Seq<char>, n: int) -> bool {
    exists|j: int| 0 <= j < n && j < rows.len() && (#[trigger] rows[j]).command_hash == hash
}

/// How many fingerprints the first `n` observations have.
pub open spec fn unique_upto(rows: Seq<ObservationText>, n: int) -> nat
    decreases n,
{
    if n <= 0 {
        0
    } else {
        unique_upto(rows, n - 1) + one_if(!hash_seen(rows, rows[n - 1].command_hash, n - 1))
    }
}

pub open spec fn total_weight(rows: Seq<ObservationText>) -> nat {
    tally(rows, |o: ObservationText| o.weight as nat)
}

/// A template and how the commands of a session that have it went.
pub struct HotPattern {
    pub pattern: String,
    pub count: usize,
    pub successes: usize,
    /// The sum of the durations, in milliseconds.
    pub duration_total: u128,
}

/// A `HotPattern` as plain values.
pub struct HotText {
    pub pattern: Seq<char>,
    pub count: usize,
    pub successes: usize,
    pub duration_total: u128,
}

impl View for HotPattern {
    type V = HotText;

    open spec fn view(&self) -> HotText {
        HotText {
            pattern: self.pattern@,
            count: self.count,
            successes: self.successes,
            duration_total: self.duration_total,
        }
    }
}

pub open spec fn hot_texts(v: Seq<HotPattern>) -> Seq<HotText> {
    Seq::new(v.len(), |i: int| v[i]@)
}

pub open spec fn of_template(row: RecentText, session: Seq<char>, template: Seq<char>) -> bool {
    row.session_id == session && row.command_template == template
}

pub open spec fn template_runs(rows: Seq<RecentText>, session: Seq<char>, template: Seq<char>) -> nat {
    tally(rows, |r: RecentText| one_if(of_template(r, session, template)))
}

pub open spec fn template_successes(
    rows: Seq<RecentText>,
    session: Seq<char>,
    template: Seq<char>,
) -> nat {
    tally(rows, |r: RecentText| one_if(of_template(r, session, template) && r.success))
}

pub open spec fn template_duration(
    rows: Seq<RecentText>,
    session: Seq<char>,
    template: Seq<char>,
) -> nat {
    tally(
        rows,
        |r: RecentText|
            if of_template(r, session, template) {
                r.duration_ms as nat
            } else {
                0
            },
    )
}

/// Whether one of the first `n` rows is of the session and the template.
pub open spec fn template_seen(
    rows: Seq<RecentText>,
    session: Seq<char>,
    template: Seq<char>,
    n: int,
) -> bool {
    exists|j: int| 0 <= j < n && j < rows.len() && of_template(#[trigger] rows[j], session, template)
}

/// The templates of a session among the first `n` rows, each once, in
/// the order in which they first occur, with the record of all its runs.
pub open spec fn session_templates(rows: Seq<RecentText>, session: Seq<char>, n: int) -> Seq<HotText>
    decreases n,
{
    if n <= 0 {
        Seq::empty()
    } else if rows[n - 1].session_id == session && !template_seen(
        rows,
        session,
        rows[n - 1].command_template,
        n - 1,
    ) {
        session_templates(rows, session, n - 1).push(
            HotText {
                pattern: rows[n - 1].command_template,
                count: template_runs(rows, session, rows[n - 1].command_template) as usize,
                successes: template_successes(rows, session, rows[n - 1].command_template) as usize,
                duration_total: template_duration(
                    rows,
                    session,
                    rows[n - 1].command_template,
                ) as u128,
            },
        )
    } else {
        session_templates(rows, session, n - 1)
    }
}

/// Where the template with the most runs stands; of several, the first.
pub open spec fn busiest(cands: Seq<HotText>) -> int
    decreases cands.len(),
{
    if cands.len() <= 1 {
        0
    } else if cands.last().count > cands[busiest(cands.drop_last())].count {
        cands.len() - 1
    } else {
        busiest(cands.drop_last())
    }
}

pub proof fn lemma_busiest(cands: Seq<HotText>)
    requires
        cands.len() > 0,
    ensures
        0 <= busiest(cands) < cands.len(),
        forall|i: int| 0 <= i < cands.len() ==> (#[trigger] cands[i]).count <= cands[busiest(cands)].count,
    decreases cands.len(),
{
    if cands.len() > 1 {
        lemma_busiest(cands.drop_last());
        assert forall|i: int| 0 <= i < cands.len() implies (#[trigger] cands[i]).count
            <= cands[busiest(cands)].count by {
            if i < cands.len() - 1 {
                assert(cands.drop_last()[i] == cands[i]);
            }
        }
    }
}

/// The `n` templates with the most runs, the busiest first.
pub open spec fn top_templates(cands: Seq<HotText>, n: nat) -> Seq<HotText>
    decreases n,
{
    if n == 0 || cands.len() == 0 {
        Seq::empty()
    } else {
        seq![cands[busiest(cands)]] + top_templates(cands.remove(busiest(cands)), (n - 1) as nat)
    }
}

/// The templates of a session with the most runs.
pub open spec fn hot_patterns(rows: Seq<RecentText>, session: Seq<char>, limit: nat) -> Seq<HotText> {
    top_templates(session_templates(rows, session, rows.len() as int), limit)
}

/// Whether `x` is one of `cands`.
pub open spec fn is_among(cands: Seq<HotText>, x: HotText) -> bool {
    exists|m: int| 0 <= m < cands.len() && #[trigger] cands[m] == x
}

/// The busiest templates are taken from the candidates, are listed with
/// the busiest first, and are no more than asked for.
pub proof fn lemma_top_templates(cands: Seq<HotText>, n: nat)
    ensures
        top_templates(cands, n).len() <= n,
        top_templates(cands, n).len() <= cands.len(),
        forall|i: int|
            0 <= i < top_templates(cands, n).len() ==> is_among(
                cands,
                #[trigger] top_templates(cands, n)[i],
            ),
        forall|i: int, j: int|
            0 <= i <= j < top_templates(cands, n).len() ==> top_templates(cands, n)[i].count
                >= top_templates(cands, n)[j].count,
    decreases n,
{
    if n > 0 && cands.len() > 0 {
        lemma_busiest(cands);
        let b = busiest(cands);
        let rest = cands.remove(b);
        lemma_top_templates(rest, (n - 1) as nat);
        let inner = top_templates(rest, (n - 1) as nat);
        let all = top_templates(cands, n);
        assert(all[0] == cands[b]);
        assert forall|i: int| 0 <= i < inner.len() implies is_among(cands, #[trigger] inner[i]) by {
            assert(is_among(rest, inner[i]));
            let m = choose|m: int| 0 <= m < rest.len() && #[trigger] rest[m] == inner[i];
            if m < b {
                assert(cands[m] == rest[m]);
            } else {
                assert(cands[m + 1] == rest[m]);
            }
        }
        assert forall|i: int| 0 <= i < all.len() implies is_among(cands, #[trigger] all[i]) by {
            if i > 0 {
                assert(all[i] == inner[i - 1]);
            }
        }
        assert forall|i: int, j: int| 0 <= i <= j < all.len() implies all[i].count
            >= all[j].count by {
            if i == 0 {
                if j > 0 {
                    assert(all[j] == inner[j - 1]);
                    assert(is_among(cands, inner[j - 1]));
                    let m = choose|m: int| 0 <= m < cands.len() && #[trigger] cands[m] == inner[j - 1];
                    assert(cands[m].count <= cands[b].count);
                }
            } else {
                assert(all[i] == inner[i - 1]);
                assert(all[j] == inner[j - 1]);
            }
        }
    }
}

fn seen_template(store: &Store, session: &Vec<char>, template: &String, n: usize) -> (r: bool)
    requires
        n <= store.recent_commands.len(),
    ensures
        r == template_seen(store@.recent_commands, session@, template@, n as int),
{
    let wanted = chars_of(template.as_str());
    let ghost all = store@.recent_commands;
    let mut j: usize = 0;
    while j < n
        invariant
            j <= n <= store.recent_commands.len(),
            wanted@ == template@,
            all == store@.recent_commands,
            !template_seen(all, session@, template@, j as int),
        decreases n - j,
    {
        let row = &store.recent_commands[j];
        assert(all[j as int] == row@);
        if same_chars(&chars_of(row.session_id.as_str()), session) && same_chars(
            &chars_of(row.command_template.as_str()),
            &wanted,
        ) {
            assert(of_template(all[j as int], session@, template@));
            return true;
        }
        assert forall|k: int|
            0 <= k < j + 1 && k < all.len() implies !of_template(
            #[trigger] all[k],
            session@,
            template@,
        ) by {
            if k < j {
                assert(!template_seen(all, session@, template@, j as int));
            }
        }
        j += 1;
    }
    false
}

fn record_of(store: &Store, session: &Vec<char>, template: &String) -> (r: HotPattern)
    ensures
        r@ == (HotText {
            pattern: template@,
            count: template_runs(store@.recent_commands, session@, template@) as usize,
            successes: template_successes(store@.recent_commands, session@, template@) as usize,
            duration_total: template_duration(store@.recent_commands, session@, template@) as u128,
        }),
{
    let wanted = chars_of(template.as_str());
    let ghost all = store@.recent_commands;
    let mut count: usize = 0;
    let mut successes: usize = 0;
    let mut duration: u128 = 0;
    let mut i: usize = 0;
    assert(all.take(0) =~= Seq::<RecentText>::empty());
    while i < store.recent_commands.len()
        invariant
            i <= store.recent_commands.len(),
            wanted@ == template@,
            all == store@.recent_commands,
            count == template_runs(all.take(i as int), session@, template@),
            successes == template_successes(all.take(i as int), session@, template@),
            duration == template_duration(all.take(i as int), session@, template@),
            successes <= count <= i,
            duration <= count * 0xffff_ffff_ffff_ffff,
        decreases store.recent_commands.len() - i,
    {
        assert(all.take(i + 1).drop_last() =~= all.take(i as int));
        assert(all.take(i + 1).last() == store.recent_commands@[i as int]@);
        let row = &store.recent_commands[i];
        if same_chars(&chars_of(row.session_id.as_str()), session) && same_chars(
            &chars_of(row.command_template.as_str()),
            &wanted,
        ) {
            assert((count + 1) * 0xffff_ffff_ffff_ffff == count * 0xffff_ffff_ffff_ffff
                + 0xffff_ffff_ffff_ffff) by (nonlinear_arith);
            assert(count * 0xffff_ffff_ffff_ffff <= 0xffff_ffff_ffff_ffff * 0xffff_ffff_ffff_ffff)
                by (nonlinear_arith)
                requires
                    count <= 0xffff_ffff_ffff_ffff,
            ;
            count += 1;
            duration += row.duration_ms as u128;
            if row.success {
                successes += 1;
            }
        }
        i += 1;
    }
    assert(all.take(store.recent_commands.len() as int) =~= all);
    HotPattern { pattern: template.clone(), count, successes, duration_total: duration }
}

fn find_busiest(cands: &Vec<HotPattern>) -> (r: usize)
    requires
        cands.len() > 0,
    ensures
        r == busiest(hot_texts(cands@)),
        r < cands.len(),
{
    let ghost all = hot_texts(cands@);
    let mut best: usize = 0;
    let mut i: usize = 1;
    assert(busiest(all.take(1)) == 0);
    while i < cands.len()
        invariant
            1 <= i <= cands.len(),
            best < i,
            all == hot_texts(cands@),
            best == busiest(all.take(i as int)),
        decreases cands.len() - i,
    {
        let ghost upto = all.take(i + 1);
        assert(upto.drop_last() =~= all.take(i as int));
        assert(upto.last() == cands@[i as int]@);
        assert(upto[best as int] == cands@[best as int]@);
        if cands[i].count > cands[best].count {
            best = i;
        }
        i += 1;
    }
    assert(all.take(cands.len() as int) =~= all);
    best
}

/// The templates of a session with the most runs, at most `limit`, the
/// busiest first; of templates with as many runs, the one that ran first.
pub fn get_hot_patterns(store: &Store, session_id: &str, limit: usize) -> (r: Vec<HotPattern>)
    ensures
        hot_texts(r@) == hot_patterns(store@.recent_commands, session_id@, limit as nat),
        r@.len() <= limit,
{
    let session = chars_of(session_id);
    let ghost all = store@.recent_commands;
    let mut cands: Vec<HotPattern> = Vec::new();
    let mut i: usize = 0;
    assert(hot_texts(cands@) =~= session_templates(all, session_id@, 0));
    while i < store.recent_commands.len()
        invariant
            i <= store.recent_commands.len(),
            session@ == session_id@,
            all == store@.recent_commands,
            hot_texts(cands@) == session_templates(all, session_id@, i as int),
        decreases store.recent_commands.len() - i,
    {
        let row = &store.recent_commands[i];
        assert(all[i as int] == row@);
        if same_chars(&chars_of(row.session_id.as_str()), &session) && !seen_template(
            store,
            &session,
            &row.command_template,
            i,
        ) {
            let cand = record_of(store, &session, &row.command_template);
            let ghost sofar = hot_texts(cands@);
            cands.push(cand);
            assert(hot_texts(cands@) =~= sofar.push(cand@));
        }
        i += 1;
    }
    let ghost start = hot_texts(cands@);
    proof {
        lemma_top_templates(start, limit as nat);
    }
    let mut out: Vec<HotPattern> = Vec::new();
    let mut left: usize = limit;
    assert(hot_texts(out@) + top_templates(start, limit as nat) =~= top_templates(
        start,
        limit as nat,
    ));
    while left > 0 && cands.len() > 0
        invariant
            left <= limit,
            top_templates(start, limit as nat) == hot_texts(out@) + top_templates(
                hot_texts(cands@),
                left as nat,
            ),
        decreases left,
    {
        let at = find_busiest(&cands);
        let ghost before = hot_texts(cands@);
        let ghost sofar = hot_texts(out@);
        let picked = cands.remove(at);
        assert(hot_texts(cands@) =~= before.remove(at as int));
        assert(picked@ == before[at as int]);
        out.push(picked);
        assert(hot_texts(out@) =~= sofar.push(picked@));
        assert(sofar + (seq![before[at as int]] + top_templates(
            before.remove(at as int),
            (left - 1) as nat,
        )) =~= hot_texts(out@) + top_templates(hot_texts(cands@), (left - 1) as nat));
        left -= 1;
    }
    assert(hot_texts(out@) + Seq::<HotText>::empty() =~= hot_texts(out@));
    out
}

/// What the store holds as a whole, and of a session.
pub struct AlanStats {
    pub total_observations: usize,
    pub unique_patterns: usize,
    /// The sum of the weights, in millionths.
    pub total_weight: u128,
    pub oldest: Option<String>,
    pub newest: Option<String>,
    pub session: SessionStats,
    pub hot_patterns: Vec<HotPattern>,
}

fn seen_hash(store: &Store, hash: &String, n: usize) -> (r: bool)
    requires
        n <= store.observations.len(),
    ensures
        r == hash_seen(store@.observations, hash@, n as int),
{
    let wanted = chars_of(hash.as_str());
    let ghost all = store@.observations;
    let mut j: usize = 0;
    while j < n
        invariant
            j <= n <= store.observations.len(),
            wanted@ == hash@,
            all == store@.observations,
            !hash_seen(all, hash@, j as int),
        decreases n - j,
    {
        let row = &store.observations[j];
        assert(all[j as int] == row@);
        if same_chars(&chars_of(row.command_hash.as_str()), &wanted) {
            assert(all[j as int].command_hash == hash@);
            return true;
        }
        assert forall|k: int| 0 <= k < j + 1 && k < all.len() implies (#[trigger] all[k]).command_hash
            != hash@ by {
            if k < j {
                assert(!hash_seen(all, hash@, j as int));
            }
        }
        j += 1;
    }
    false
}

/// What the store holds: how many observations of how many
/// fingerprints, their weight, the earliest and the latest, and the
/// record of the session with its five busiest templates.
pub fn get_stats(store: &Store, session_id: &str) -> (r: AlanStats)
    ensures
        r.total_observations == store@.observations.len(),
        r.unique_patterns == unique_upto(store@.observations, store@.observations.len() as int),
        r.total_weight == total_weight(store@.observations),
        crate::text::text_of(r.oldest) == oldest_upto(
            store@.observations,
            store@.observations.len() as int,
        ),
        crate::text::text_of(r.newest) == newest_upto(
            store@.observations,
            store@.observations.len() as int,
        ),
        is_session_record(r.session, store@.recent_commands, session_id@),
        hot_texts(r.hot_patterns@) == hot_patterns(store@.recent_commands, session_id@, 5),
{
    let ghost all = store@.observations;
    let mut unique: usize = 0;
    let mut weight: u128 = 0;
    let mut oldest: Option<String> = None;
    let mut newest: Option<String> = None;
    let mut i: usize = 0;
    assert(all.take(0) =~= Seq::<ObservationText>::empty());
    while i < store.observations.len()
        invariant
            i <= store.observations.len(),
            all == store@.observations,
            unique == unique_upto(all, i as int),
            unique <= i,
            weight == total_weight(all.take(i as int)),
            weight <= i * 0xffff_ffff,
            crate::text::text_of(oldest) == oldest_upto(all, i as int),
            crate::text::text_of(newest) == newest_upto(all, i as int),
        decreases store.observations.len() - i,
    {
        assert(all.take(i + 1).drop_last() =~= all.take(i as int));
        assert(all.take(i + 1).last() == store.observations@[i as int]@);
        let row = &store.observations[i];
        assert(all[i as int] == row@);
        assert((i + 1) * 0xffff_ffff == i * 0xffff_ffff + 0xffff_ffff) by (nonlinear_arith);
        assert(i * 0xffff_ffff <= 0xffff_ffff_ffff_ffff * 0xffff_ffff) by (nonlinear_arith)
            requires
                i <= 0xffff_ffff_ffff_ffff,
        ;
        weight += row.weight as u128;
        if !seen_hash(store, &row.command_hash, i) {
            unique += 1;
        }
        let older = match &oldest {
            None => true,
            Some(best) => is_before(row.created_at.as_str(), best.as_str()),
        };
        if older {
            oldest = Some(row.created_at.clone());
        }
        let newer = match &newest {
            None => true,
            Some(best) => is_before(best.as_str(), row.created_at.as_str()),
        };
        if newer {
            newest = Some(row.created_at.clone());
        }
        i += 1;
    }
    assert(all.take(store.observations.len() as int) =~= all);
    AlanStats {
        total_observations: store.observations.len(),
        unique_patterns: unique,
        total_weight: weight,
        oldest,
        newest,
        session: get_session_stats(store, session_id),
        hot_patterns: get_hot_patterns(store, session_id, 5),
    }
}

} // verus!
