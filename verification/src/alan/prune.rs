use crate::alan::has_observation;
use crate::alan::store::{
    lemma_observation_texts_push, lemma_ssh_texts_push, Observation, observation_texts,
    ObservationText, ssh_texts, SshObservation, SshRowText, Store, StoreText,
};
use crate::clock::{now_micros, now_rfc3339, parse_rfc3339, rfc3339_micros};
use crate::text::{chars_of, same_chars, text_of};
use vstd::prelude::*;

verus! {

/// The factor, in millionths, by which the weight of row `i` decays: the
/// one handed in for it, at most 1 000 000; no decay where none is handed in.
pub open spec fn factor_at(factors: Seq<u64>, i: int) -> int {
    if 0 <= i < factors.len() && factors[i] < 1_000_000 {
        factors[i] as int
    } else {
        1_000_000
    }
}

/// A weight after decay. A weight that is not above the threshold is left alone.
pub open spec fn decayed_weight(weight: u32, factor: int, threshold: u32) -> u32 {
    if weight > threshold {
        ((weight * factor) / 1_000_000) as u32
    } else {
        weight
    }
}

/// The observations with their weights decayed.
pub open spec fn decayed(rows: Seq<ObservationText>, factors: Seq<u64>, threshold: u32) -> Seq<
    ObservationText,
> {
    Seq::new(
        rows.len(),
        |i: int|
            ObservationText {
                weight: decayed_weight(rows[i].weight, factor_at(factors, i), threshold),
                ..rows[i]
            },
    )
}

/// The `ssh` rows with their weights decayed.
pub open spec fn ssh_decayed(rows: Seq<SshRowText>, factors: Seq<u64>, threshold: u32) -> Seq<SshRowText> {
    Seq::new(
        rows.len(),
        |i: int|
            SshRowText {
                weight: decayed_weight(rows[i].weight, factor_at(factors, i), threshold),
                ..rows[i]
            },
    )
}

/// The observations whose weight is not below the threshold.
pub open spec fn heavy(rows: Seq<ObservationText>, threshold: u32) -> Seq<ObservationText>
    decreases rows.len(),
{
    if rows.len() == 0 {
        Seq::empty()
    } else if rows.last().weight >= threshold {
        heavy(rows.drop_last(), threshold).push(rows.last())
    } else {
        heavy(rows.drop_last(), threshold)
    }
}

/// Where the lightest observation stands; of several, the last.
pub open spec fn lightest(rows: Seq<ObservationText>) -> int
    decreases rows.len(),
{
    if rows.len() <= 1 {
        0
    } else if rows.last().weight <= rows[lightest(rows.drop_last())].weight {
        rows.len() - 1
    } else {
        lightest(rows.drop_last())
    }
}

pub proof fn lemma_lightest(rows: Seq<ObservationText>)
    requires
        rows.len() > 0,
    ensures
        0 <= lightest(rows) < rows.len(),
        forall|i: int| 0 <= i < rows.len() ==> rows[lightest(rows)].weight <= (#[trigger] rows[i]).weight,
    decreases rows.len(),
{
    if rows.len() > 1 {
        lemma_lightest(rows.drop_last());
        assert forall|i: int| 0 <= i < rows.len() implies rows[lightest(rows)].weight <= (
        #[trigger] rows[i]).weight by {
            if i < rows.len() - 1 {
                assert(rows.drop_last()[i] == rows[i]);
            }
        }
    }
}

/// The observations after the lightest was removed `n` times.
pub open spec fn without_lightest(rows: Seq<ObservationText>, n: nat) -> Seq<ObservationText>
    decreases n,
{
    if n == 0 || rows.len() == 0 {
        rows
    } else {
        without_lightest(rows.remove(lightest(rows)), (n - 1) as nat)
    }
}

/// The observations cut down to `max` by removing the lightest, one at a time.
pub open spec fn capped(rows: Seq<ObservationText>, max: int) -> Seq<ObservationText> {
    if rows.len() <= max {
        rows
    } else {
        without_lightest(rows, (rows.len() - max) as nat)
    }
}

/// The `ssh` rows whose weight is not below the threshold and whose
/// observation is among `observations`.
pub open spec fn kept_ssh(rows: Seq<SshRowText>, observations: Seq<ObservationText>, threshold: u32) -> Seq<
    SshRowText,
>
    decreases rows.len(),
{
    if rows.len() == 0 {
        Seq::empty()
    } else if rows.last().weight >= threshold && has_observation(
        observations,
        rows.last().observation_id,
    ) {
        kept_ssh(rows.drop_last(), observations, threshold).push(rows.last())
    } else {
        kept_ssh(rows.drop_last(), observations, threshold)
    }
}

/// The store after a pruning at the time `now_iso`: weights decayed, what
/// is too light removed, the observations cut down to `max_entries`, and
/// the `ssh` rows without an observation removed.
pub open spec fn pruned(
    store: StoreText,
    factors: Seq<u64>,
    ssh_factors: Seq<u64>,
    threshold: u32,
    max_entries: int,
    now_iso: Seq<char>,
) -> StoreText {
    let observations = capped(
        heavy(decayed(store.observations, factors, threshold), threshold),
        max_entries,
    );
    StoreText {
        observations,
        ssh_observations: kept_ssh(
            ssh_decayed(store.ssh_observations, ssh_factors, threshold),
            observations,
            threshold,
        ),
        last_prune: Some(now_iso),
        ..store
    }
}

pub proof fn lemma_heavy(rows: Seq<ObservationText>, threshold: u32)
    ensures
        heavy(rows, threshold).len() <= rows.len(),
        forall|i: int|
            0 <= i < heavy(rows, threshold).len() ==> (#[trigger] heavy(rows, threshold)[i]).weight
                >= threshold,
    decreases rows.len(),
{
    if rows.len() > 0 {
        lemma_heavy(rows.drop_last(), threshold);
        let inner = heavy(rows.drop_last(), threshold);
        let all = heavy(rows, threshold);
        assert forall|i: int| 0 <= i < all.len() implies (#[trigger] all[i]).weight
            >= threshold by {
            if i < inner.len() {
                assert(all[i] == inner[i]);
            }
        }
    }
}

pub proof fn lemma_without_lightest(rows: Seq<ObservationText>, n: nat, threshold: u32)
    requires
        n <= rows.len(),
        forall|i: int| 0 <= i < rows.len() ==> (#[trigger] rows[i]).weight >= threshold,
    ensures
        without_lightest(rows, n).len() == rows.len() - n,
        forall|i: int|
            0 <= i < without_lightest(rows, n).len() ==> (#[trigger] without_lightest(
                rows,
                n,
            )[i]).weight >= threshold,
    decreases n,
{
    if n > 0 && rows.len() > 0 {
        lemma_lightest(rows);
        let rest = rows.remove(lightest(rows));
        assert forall|i: int| 0 <= i < rest.len() implies (#[trigger] rest[i]).weight
            >= threshold by {
            if i < lightest(rows) {
                assert(rest[i] == rows[i]);
            } else {
                assert(rest[i] == rows[i + 1]);
            }
        }
        lemma_without_lightest(rest, (n - 1) as nat, threshold);
    }
}

pub proof fn lemma_capped(rows: Seq<ObservationText>, max: int, threshold: u32)
    requires
        0 <= max,
        forall|i: int| 0 <= i < rows.len() ==> (#[trigger] rows[i]).weight >= threshold,
    ensures
        capped(rows, max).len() <= max,
        capped(rows, max).len() <= rows.len(),
        forall|i: int|
            0 <= i < capped(rows, max).len() ==> (#[trigger] capped(rows, max)[i]).weight
                >= threshold,
{
    if rows.len() > max {
        lemma_without_lightest(rows, (rows.len() - max) as nat, threshold);
    }
}

pub proof fn lemma_kept_ssh(rows: Seq<SshRowText>, observations: Seq<ObservationText>, threshold: u32)
    ensures
        forall|i: int|
            0 <= i < kept_ssh(rows, observations, threshold).len() ==> has_observation(
                observations,
                (#[trigger] kept_ssh(rows, observations, threshold)[i]).observation_id,
            ) && kept_ssh(rows, observations, threshold)[i].weight >= threshold,
    decreases rows.len(),
{
    if rows.len() > 0 {
        lemma_kept_ssh(rows.drop_last(), observations, threshold);
        let inner = kept_ssh(rows.drop_last(), observations, threshold);
        let all = kept_ssh(rows, observations, threshold);
        assert forall|i: int| 0 <= i < all.len() implies has_observation(
            observations,
            (#[trigger] all[i]).observation_id,
        ) && all[i].weight >= threshold by {
            if i < inner.len() {
                assert(all[i] == inner[i]);
            }
        }
    }
}

/// After a pruning no observation is lighter than the threshold, there
/// are at most `max_entries` observations, and every `ssh` row belongs to
/// an observation that is still there.
pub proof fn lemma_pruned(
    store: StoreText,
    factors: Seq<u64>,
    ssh_factors: Seq<u64>,
    threshold: u32,
    max_entries: int,
    now_iso: Seq<char>,
)
    requires
        0 <= max_entries,
    ensures
        ({
            let after = pruned(store, factors, ssh_factors, threshold, max_entries, now_iso);
            &&& after.observations.len() <= max_entries
            &&& forall|i: int|
                0 <= i < after.observations.len() ==> (#[trigger] after.observations[i]).weight
                    >= threshold
            &&& forall|i: int|
                0 <= i < after.ssh_observations.len() ==> has_observation(
                    after.observations,
                    (#[trigger] after.ssh_observations[i]).observation_id,
                )
        }),
{
    let light = heavy(decayed(store.observations, factors, threshold), threshold);
    lemma_heavy(decayed(store.observations, factors, threshold), threshold);
    lemma_capped(light, max_entries, threshold);
    lemma_kept_ssh(
        ssh_decayed(store.ssh_observations, ssh_factors, threshold),
        capped(light, max_entries),
        threshold,
    );
}


fn decay_weight(weight: u32, factors: &Vec<u64>, i: usize, threshold: u32) -> (r: u32)
    ensures
        r == decayed_weight(weight, factor_at(factors@, i as int), threshold),
{
    if weight > threshold {
        let factor: u64 = if i < factors.len() && factors[i] < 1_000_000 {
            factors[i]
        } else {
            1_000_000
        };
        assert(weight * factor <= 0xffff_ffff * 1_000_000) by (nonlinear_arith)
            requires
                weight <= 0xffff_ffff,
                factor <= 1_000_000,
        ;
        let scaled: u64 = (weight as u64) * factor;
        assert(scaled / 1_000_000 <= weight) by (nonlinear_arith)
            requires
                scaled == weight * factor,
                factor <= 1_000_000,
        ;
        (scaled / 1_000_000) as u32
    } else {
        weight
    }
}

fn copy_text(s: &Option<String>) -> (r: Option<String>)
    ensures
        text_of(r) == text_of(*s),
{
    match s {
        Some(t) => Some(t.clone()),
        None => None,
    }
}

fn reweighed(row: &Observation, weight: u32) -> (r: Observation)
    ensures
        r@ == (ObservationText { weight, ..row@ }),
{
    Observation {
        id: row.id.clone(),
        command_hash: row.command_hash.clone(),
        command_template: row.command_template.clone(),
        command_preview: row.command_preview.clone(),
        exit_code: row.exit_code,
        duration_ms: row.duration_ms,
        timed_out: row.timed_out,
        output_snippet: copy_text(&row.output_snippet),
        weight,
        created_at: row.created_at.clone(),
    }
}

fn ssh_reweighed(row: &SshObservation, weight: u32) -> (r: SshObservation)
    ensures
        r@ == (SshRowText { weight, ..row@ }),
{
    SshObservation {
        id: row.id.clone(),
        observation_id: row.observation_id.clone(),
        host: row.host.clone(),
        remote_command: copy_text(&row.remote_command),
        remote_command_template: copy_text(&row.remote_command_template),
        exit_code: row.exit_code,
        exit_type: row.exit_type.clone(),
        duration_ms: row.duration_ms,
        timed_out: row.timed_out,
        weight,
        created_at: row.created_at.clone(),
    }
}

/// Lets the weights decay: each observation and each `ssh` row that
/// weighs more than the threshold gets its weight multiplied by the
/// factor handed in for it, given in millionths.
pub fn apply_decay(store: &mut Store, factors: &Vec<u64>, ssh_factors: &Vec<u64>, threshold: u32)
    ensures
        final(store)@ == (StoreText {
            observations: decayed(old(store)@.observations, factors@, threshold),
            ssh_observations: ssh_decayed(old(store)@.ssh_observations, ssh_factors@, threshold),
            ..old(store)@
        }),
{
    let ghost before = store@;
    let mut rows: Vec<Observation> = Vec::new();
    let mut i: usize = 0;
    assert(observation_texts(rows@) =~= decayed(before.observations, factors@, threshold).take(0));
    while i < store.observations.len()
        invariant
            i <= store.observations.len(),
            store@ == before,
            observation_texts(rows@) == decayed(before.observations, factors@, threshold).take(
                i as int,
            ),
        decreases store.observations.len() - i,
    {
        let row = &store.observations[i];
        assert(before.observations[i as int] == row@);
        let lighter = reweighed(row, decay_weight(row.weight, factors, i, threshold));
        proof {
            lemma_observation_texts_push(rows@, lighter);
        }
        rows.push(lighter);
        assert(observation_texts(rows@) =~= decayed(before.observations, factors@, threshold).take(
            i + 1,
        ));
        i += 1;
    }
    assert(decayed(before.observations, factors@, threshold).take(
        store.observations.len() as int,
    ) =~= decayed(before.observations, factors@, threshold));
    let mut ssh_rows: Vec<SshObservation> = Vec::new();
    let mut j: usize = 0;
    assert(ssh_texts(ssh_rows@) =~= ssh_decayed(
        before.ssh_observations,
        ssh_factors@,
        threshold,
    ).take(0));
    while j < store.ssh_observations.len()
        invariant
            j <= store.ssh_observations.len(),
            store@ == before,
            ssh_texts(ssh_rows@) == ssh_decayed(
                before.ssh_observations,
                ssh_factors@,
                threshold,
            ).take(j as int),
        decreases store.ssh_observations.len() - j,
    {
        let row = &store.ssh_observations[j];
        assert(before.ssh_observations[j as int] == row@);
        let lighter = ssh_reweighed(row, decay_weight(row.weight, ssh_factors, j, threshold));
        proof {
            lemma_ssh_texts_push(ssh_rows@, lighter);
        }
        ssh_rows.push(lighter);
        assert(ssh_texts(ssh_rows@) =~= ssh_decayed(
            before.ssh_observations,
            ssh_factors@,
            threshold,
        ).take(j + 1));
        j += 1;
    }
    assert(ssh_decayed(before.ssh_observations, ssh_factors@, threshold).take(
        store.ssh_observations.len() as int,
    ) =~= ssh_decayed(before.ssh_observations, ssh_factors@, threshold));
    store.observations = rows;
    store.ssh_observations = ssh_rows;
}

fn keep_heavy(rows: &Vec<Observation>, threshold: u32) -> (r: Vec<Observation>)
    ensures
        observation_texts(r@) == heavy(observation_texts(rows@), threshold),
{
    let ghost all = observation_texts(rows@);
    let mut kept: Vec<Observation> = Vec::new();
    let mut i: usize = 0;
    assert(observation_texts(kept@) =~= heavy(all.take(0), threshold));
    while i < rows.len()
        invariant
            i <= rows.len(),
            all == observation_texts(rows@),
            observation_texts(kept@) == heavy(all.take(i as int), threshold),
        decreases rows.len() - i,
    {
        assert(all.take(i + 1).drop_last() =~= all.take(i as int));
        assert(all.take(i + 1).last() == rows@[i as int]@);
        if rows[i].weight >= threshold {
            let copy = reweighed(&rows[i], rows[i].weight);
            assert(copy@ == rows@[i as int]@);
            proof {
                lemma_observation_texts_push(kept@, copy);
            }
            kept.push(copy);
        }
        i += 1;
    }
    assert(all.take(rows.len() as int) =~= all);
    kept
}

fn find_lightest(rows: &Vec<Observation>) -> (r: usize)
    requires
        rows.len() > 0,
    ensures
        r == lightest(observation_texts(rows@)),
        r < rows.len(),
{
    let ghost all = observation_texts(rows@);
    let mut best: usize = 0;
    let mut i: usize = 1;
    assert(lightest(all.take(1)) == 0);
    while i < rows.len()
        invariant
            1 <= i <= rows.len(),
            best < i,
            all == observation_texts(rows@),
            best == lightest(all.take(i as int)),
        decreases rows.len() - i,
    {
        let ghost upto = all.take(i + 1);
        assert(upto.drop_last() =~= all.take(i as int));
        assert(upto.last() == rows@[i as int]@);
        assert(upto[best as int] == rows@[best as int]@);
        if rows[i].weight <= rows[best].weight {
            best = i;
        }
        i += 1;
    }
    assert(all.take(rows.len() as int) =~= all);
    best
}

fn cap(rows: &mut Vec<Observation>, max_entries: usize)
    ensures
        observation_texts(final(rows)@) == capped(
            observation_texts(old(rows)@),
            max_entries as int,
        ),
{
    if rows.len() <= max_entries {
        return ;
    }
    let ghost start = observation_texts(rows@);
    let mut n: usize = rows.len() - max_entries;
    while n > 0
        invariant
            n <= rows.len(),
            without_lightest(start, (start.len() - max_entries) as nat) == without_lightest(
                observation_texts(rows@),
                n as nat,
            ),
        decreases n,
    {
        let at = find_lightest(rows);
        let ghost before = observation_texts(rows@);
        rows.remove(at);
        assert(observation_texts(rows@) =~= before.remove(at as int));
        n -= 1;
    }
}

fn keep_ssh(rows: &Vec<SshObservation>, observations: &Vec<Observation>, threshold: u32) -> (r: Vec<
    SshObservation,
>)
    ensures
        ssh_texts(r@) == kept_ssh(ssh_texts(rows@), observation_texts(observations@), threshold),
{
    let ghost all = ssh_texts(rows@);
    let ghost known = observation_texts(observations@);
    let mut kept: Vec<SshObservation> = Vec::new();
    let mut i: usize = 0;
    assert(ssh_texts(kept@) =~= kept_ssh(all.take(0), known, threshold));
    while i < rows.len()
        invariant
            i <= rows.len(),
            all == ssh_texts(rows@),
            known == observation_texts(observations@),
            ssh_texts(kept@) == kept_ssh(all.take(i as int), known, threshold),
        decreases rows.len() - i,
    {
        assert(all.take(i + 1).drop_last() =~= all.take(i as int));
        assert(all.take(i + 1).last() == rows@[i as int]@);
        if rows[i].weight >= threshold && observation_listed(
            observations,
            rows[i].observation_id.as_str(),
        ) {
            let copy = ssh_reweighed(&rows[i], rows[i].weight);
            assert(copy@ == rows@[i as int]@);
            proof {
                lemma_ssh_texts_push(kept@, copy);
            }
            kept.push(copy);
        }
        i += 1;
    }
    assert(all.take(rows.len() as int) =~= all);
    kept
}

fn observation_listed(rows: &Vec<Observation>, id: &str) -> (r: bool)
    ensures
        r == has_observation(observation_texts(rows@), id@),
{
    let wanted = chars_of(id);
    let mut i: usize = 0;
    while i < rows.len()
        invariant
            i <= rows.len(),
            wanted@ == id@,
            forall|k: int| 0 <= k < i ==> (#[trigger] observation_texts(rows@)[k]).id != id@,
        decreases rows.len() - i,
    {
        if same_chars(&chars_of(rows[i].id.as_str()), &wanted) {
            assert(observation_texts(rows@)[i as int].id == id@);
            return true;
        }
        i += 1;
    }
    false
}

/// Prunes the store at the time `now_iso`: lets the weights decay by the
/// factors handed in, removes what weighs less than the threshold, cuts
/// the observations down to `max_entries`, keeping the heaviest, and
/// removes the `ssh` rows whose observation is gone.
pub fn prune_at(
    store: &mut Store,
    factors: &Vec<u64>,
    ssh_factors: &Vec<u64>,
    threshold: u32,
    max_entries: usize,
    now_iso: &str,
)
    ensures
        final(store)@ == pruned(
            old(store)@,
            factors@,
            ssh_factors@,
            threshold,
            max_entries as int,
            now_iso@,
        ),
        final(store)@.observations.len() <= max_entries,
        forall|i: int|
            0 <= i < final(store)@.observations.len() ==> (
            #[trigger] final(store)@.observations[i]).weight >= threshold,
        forall|i: int|
            0 <= i < final(store)@.ssh_observations.len() ==> has_observation(
                final(store)@.observations,
                (#[trigger] final(store)@.ssh_observations[i]).observation_id,
            ),
{
    proof {
        lemma_pruned(old(store)@, factors@, ssh_factors@, threshold, max_entries as int, now_iso@);
    }
    apply_decay(store, factors, ssh_factors, threshold);
    let mut observations = keep_heavy(&store.observations, threshold);
    cap(&mut observations, max_entries);
    let ssh_rows = keep_ssh(&store.ssh_observations, &observations, threshold);
    store.observations = observations;
    store.ssh_observations = ssh_rows;
    store.last_prune = Some(now_iso.to_owned());
}

/// Prunes the store at the time the clock shows.
pub fn prune(
    store: &mut Store,
    factors: &Vec<u64>,
    ssh_factors: &Vec<u64>,
    threshold: u32,
    max_entries: usize,
)
    ensures
        exists|now_iso: Seq<char>|
            final(store)@ == #[trigger] pruned(
                old(store)@,
                factors@,
                ssh_factors@,
                threshold,
                max_entries as int,
                now_iso,
            ),
        final(store)@.observations.len() <= max_entries,
        forall|i: int|
            0 <= i < final(store)@.observations.len() ==> (
            #[trigger] final(store)@.observations[i]).weight >= threshold,
        forall|i: int|
            0 <= i < final(store)@.ssh_observations.len() ==> has_observation(
                final(store)@.observations,
                (#[trigger] final(store)@.ssh_observations[i]).observation_id,
            ),
{
    let now_iso = now_rfc3339();
    prune_at(store, factors, ssh_factors, threshold, max_entries, now_iso.as_str());
}

/// The whole hours from `then` to `now`, both in microseconds since the
/// epoch; negative where `then` is later.
pub open spec fn hours_between(then: int, now: int) -> int {
    if now >= then {
        (now - then) / 3_600_000_000
    } else {
        -((then - now) / 3_600_000_000)
    }
}

/// Whether a pruning is due: none is on record, or the record cannot be
/// read, or at least `interval_hours` have passed since.
pub open spec fn prune_is_due(last_prune: Option<Seq<char>>, now: u64, interval_hours: u64) -> bool {
    match last_prune {
        None => true,
        Some(text) => match rfc3339_micros(text) {
            None => true,
            Some(then) => hours_between(then as int, now as int) >= interval_hours,
        },
    }
}

/// Whether a pruning is due at `now`.
pub fn should_prune(store: &Store, now: u64, interval_hours: u64) -> (r: bool)
    ensures
        r == prune_is_due(store@.last_prune, now, interval_hours),
{
    match &store.last_prune {
        None => true,
        Some(text) => match parse_rfc3339(text.as_str()) {
            None => true,
            Some(then) => {
                let gap: i128 = (now as i128) - (then as i128);
                let hours: i128 = if gap >= 0 {
                    gap / 3_600_000_000
                } else {
                    -((-gap) / 3_600_000_000)
                };
                hours >= interval_hours as i128
            },
        },
    }
}

/// Whether `after` is what `before` becomes when a pruning is asked for
/// at `now`, and `done` says whether the pruning was due.
pub open spec fn is_pruning(
    before: StoreText,
    after: StoreText,
    done: bool,
    factors: Seq<u64>,
    ssh_factors: Seq<u64>,
    threshold: u32,
    max_entries: int,
    prune_interval_hours: u64,
    now: u64,
    now_iso: Seq<char>,
) -> bool {
    &&& done == prune_is_due(before.last_prune, now, prune_interval_hours)
    &&& after == if done {
        pruned(before, factors, ssh_factors, threshold, max_entries, now_iso)
    } else {
        before
    }
}

/// Prunes the store if a pruning is due at `now`, and says whether it did.
pub fn maybe_prune_at(
    store: &mut Store,
    factors: &Vec<u64>,
    ssh_factors: &Vec<u64>,
    threshold: u32,
    max_entries: usize,
    prune_interval_hours: u64,
    now: u64,
    now_iso: &str,
) -> (r: bool)
    ensures
        is_pruning(
            old(store)@,
            final(store)@,
            r,
            factors@,
            ssh_factors@,
            threshold,
            max_entries as int,
            prune_interval_hours,
            now,
            now_iso@,
        ),
{
    if should_prune(store, now, prune_interval_hours) {
        prune_at(store, factors, ssh_factors, threshold, max_entries, now_iso);
        true
    } else {
        false
    }
}

/// Prunes the store if a pruning is due at the time the clock shows, and
/// says whether it did.
pub fn maybe_prune(
    store: &mut Store,
    factors: &Vec<u64>,
    ssh_factors: &Vec<u64>,
    threshold: u32,
    max_entries: usize,
    prune_interval_hours: u64,
) -> (r: bool)
    ensures
        exists|now: u64, now_iso: Seq<char>| #[trigger]
            is_pruning(
                old(store)@,
                final(store)@,
                r,
                factors@,
                ssh_factors@,
                threshold,
                max_entries as int,
                prune_interval_hours,
                now,
                now_iso,
            ),
{
    let now = now_micros();
    let now_iso = now_rfc3339();
    let r = maybe_prune_at(
        store,
        factors,
        ssh_factors,
        threshold,
        max_entries,
        prune_interval_hours,
        now,
        now_iso.as_str(),
    );
    assert(is_pruning(
        old(store)@,
        store@,
        r,
        factors@,
        ssh_factors@,
        threshold,
        max_entries as int,
        prune_interval_hours,
        now,
        now_iso@,
    ));
    r
}

} // verus!
