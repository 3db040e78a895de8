use crate::clock::now_micros;
use crate::text::{chars_of, decimal, extend_str, extend_unsigned, string_of, text_of};
use vstd::prelude::*;

verus! {

/// The three states of the breaker.
#[derive(Clone, Copy, Debug, PartialEq, Eq, Structural)]
pub enum CircuitState {
    /// Commands run.
    Closed,
    /// Commands are refused.
    Open,
    /// Commands run again, on probation.
    HalfOpen,
}

pub open spec fn state_word(state: CircuitState) -> Seq<char> {
    match state {
        CircuitState::Closed => "closed"@,
        CircuitState::Open => "open"@,
        CircuitState::HalfOpen => "half_open"@,
    }
}

impl CircuitState {
    /// The state's name in reports.
    pub fn to_string(&self) -> (r: String)
        ensures
            r@ == state_word(*self),
    {
        match self {
            CircuitState::Closed => "closed".to_owned(),
            CircuitState::Open => "open".to_owned(),
            CircuitState::HalfOpen => "half_open".to_owned(),
        }
    }
}

/// A breaker that refuses commands after too many timeouts in a short
/// time, and lets them run again after a pause. Times are microseconds
/// since the epoch; the three limits are a count and two spans in seconds.
pub struct CircuitBreaker {
    pub state: CircuitState,
    /// The timeouts within the sample window: when, and of which fingerprint.
    pub failures: Vec<(u64, String)>,
    pub last_failure: Option<u64>,
    /// When the breaker opened; set while it is open.
    pub opened_at: Option<u64>,
    pub failure_threshold: usize,
    pub recovery_timeout: u64,
    pub sample_window: u64,
}

/// A timeout on record: when it happened and the command's fingerprint.
pub type Failure = (u64, Seq<char>);

pub open spec fn failure_texts(v: Seq<(u64, String)>) -> Seq<Failure> {
    Seq::new(v.len(), |i: int| (v[i].0, v[i].1@))
}

pub proof fn lemma_failure_texts_push(v: Seq<(u64, String)>, t: u64, hash: String)
    ensures
        failure_texts(v.push((t, hash))) == failure_texts(v).push((t, hash@)),
{
    assert(failure_texts(v.push((t, hash))) =~= failure_texts(v).push((t, hash@)));
}

/// The breaker as plain values.
pub struct Breaker {
    pub state: CircuitState,
    pub failures: Seq<Failure>,
    pub last_failure: Option<u64>,
    pub opened_at: Option<u64>,
    pub failure_threshold: usize,
    pub recovery_timeout: u64,
    pub sample_window: u64,
}

impl View for CircuitBreaker {
    type V = Breaker;

    open spec fn view(&self) -> Breaker {
        Breaker {
            state: self.state,
            failures: failure_texts(self.failures@),
            last_failure: self.last_failure,
            opened_at: self.opened_at,
            failure_threshold: self.failure_threshold,
            recovery_timeout: self.recovery_timeout,
            sample_window: self.sample_window,
        }
    }
}

/// A span of seconds in microseconds.
pub open spec fn micros(seconds: u64) -> int {
    seconds * 1_000_000
}

/// Whether a timeout at `t` is still within the window that ends at `now`.
pub open spec fn in_window(t: u64, now: u64, window: u64) -> bool {
    t + micros(window) > now
}

/// The timeouts of `failures` that are within the window that ends at `now`.
pub open spec fn recent_failures(failures: Seq<Failure>, now: u64, window: u64) -> Seq<Failure>
    decreases failures.len(),
{
    if failures.len() == 0 {
        Seq::empty()
    } else if in_window(failures.last().0, now, window) {
        recent_failures(failures.drop_last(), now, window).push(failures.last())
    } else {
        recent_failures(failures.drop_last(), now, window)
    }
}

pub open spec fn text_half_open_testing() -> Seq<char> {
    "NEVERHANG: Circuit half-open, testing recovery"@
}

pub open spec fn text_half_open_monitoring() -> Seq<char> {
    "NEVERHANG: Circuit half-open, monitoring"@
}

pub open spec fn text_open() -> Seq<char> {
    "NEVERHANG: Circuit OPEN"@
}

pub open spec fn at_most(a: int, limit: int) -> int {
    if a > limit {
        limit
    } else {
        a
    }
}

impl Breaker {
    /// A new breaker: closed, with nothing on record.
    pub open spec fn fresh(failure_threshold: usize, recovery_timeout: u64, sample_window: u64) -> Breaker {
        Breaker {
            state: CircuitState::Closed,
            failures: Seq::empty(),
            last_failure: None,
            opened_at: None,
            failure_threshold,
            recovery_timeout,
            sample_window,
        }
    }

    /// The breaker is open exactly while the time of opening is set.
    pub open spec fn wf(self) -> bool {
        self.state == CircuitState::Open <==> self.opened_at is Some
    }

    /// The breaker after a timeout at `now`: the timeout is put on record,
    /// what has left the window is dropped, and the breaker opens if the
    /// record has reached the threshold.
    pub open spec fn after_timeout(self, hash: Seq<char>, now: u64) -> Breaker {
        let kept = recent_failures(self.failures.push((now, hash)), now, self.sample_window);
        if kept.len() >= self.failure_threshold {
            Breaker {
                state: CircuitState::Open,
                failures: kept,
                last_failure: Some(now),
                opened_at: Some(now),
                ..self
            }
        } else {
            Breaker { failures: kept, last_failure: Some(now), ..self }
        }
    }

    /// The breaker after a success: a breaker on probation closes and
    /// forgets its record.
    pub open spec fn after_success(self) -> Breaker {
        if self.state == CircuitState::HalfOpen {
            Breaker { state: CircuitState::Closed, failures: Seq::empty(), ..self }
        } else {
            self
        }
    }

    /// The closed breaker with nothing on record.
    pub open spec fn after_reset(self) -> Breaker {
        Breaker {
            state: CircuitState::Closed,
            failures: Seq::empty(),
            last_failure: None,
            opened_at: None,
            ..self
        }
    }

    /// Whether an open breaker has paused long enough at `now`.
    pub open spec fn recovered(self, now: u64) -> bool {
        self.opened_at matches Some(opened) && now - opened > micros(self.recovery_timeout)
    }

    /// The whole seconds that an open breaker still pauses at `now`.
    pub open spec fn seconds_left(self, now: u64) -> int {
        match self.opened_at {
            Some(opened) => {
                let left = micros(self.recovery_timeout) - (now - opened);
                if left <= 0 {
                    0
                } else {
                    left / 1_000_000
                }
            },
            None => 0,
        }
    }

    /// Whether a command may run at `now`.
    pub open spec fn allows(self, now: u64) -> bool {
        match self.state {
            CircuitState::Closed => true,
            CircuitState::Open => self.recovered(now),
            CircuitState::HalfOpen => true,
        }
    }

    /// What the breaker says when asked at `now`.
    pub open spec fn allow_message(self, now: u64) -> Option<Seq<char>> {
        match self.state {
            CircuitState::Closed => None,
            CircuitState::Open => if self.opened_at is None {
                Some(text_open())
            } else if self.recovered(now) {
                Some(text_half_open_testing())
            } else {
                Some(
                    "NEVERHANG: Circuit OPEN due to "@ + decimal(self.failures.len() as int)
                        + " recent timeouts. Retry in "@ + decimal(
                        at_most(self.seconds_left(now), i64::MAX as int),
                    ) + "s"@,
                )
            },
            CircuitState::HalfOpen => Some(text_half_open_monitoring()),
        }
    }

    /// The breaker after it was asked at `now`: an open breaker that has
    /// paused long enough goes on probation.
    pub open spec fn after_allow(self, now: u64) -> Breaker {
        if self.state == CircuitState::Open && self.recovered(now) {
            Breaker { state: CircuitState::HalfOpen, opened_at: None, ..self }
        } else {
            self
        }
    }
}

/// The state of the breaker in a report.
pub struct CircuitStatus {
    pub state: String,
    pub recent_failures: usize,
    pub failure_threshold: usize,
    pub recovery_timeout: u64,
    pub opened_at: Option<u64>,
    /// The whole seconds until an open breaker lets a command run.
    pub time_until_retry: Option<u64>,
}

impl CircuitBreaker {
    pub fn new(failure_threshold: usize, recovery_timeout: u64, sample_window: u64) -> (r: Self)
        ensures
            r@ == Breaker::fresh(failure_threshold, recovery_timeout, sample_window),
            r@.wf(),
    {
        let r = CircuitBreaker {
            state: CircuitState::Closed,
            failures: Vec::new(),
            last_failure: None,
            opened_at: None,
            failure_threshold,
            recovery_timeout,
            sample_window,
        };
        assert(r@.failures =~= Seq::<Failure>::empty());
        r
    }

    /// Puts a timeout at `now` on record.
    pub fn record_timeout_at(&mut self, command_hash: &str, now: u64)
        ensures
            final(self)@ == old(self)@.after_timeout(command_hash@, now),
    {
        let hash = command_hash.to_owned();
        proof {
            lemma_failure_texts_push(self.failures@, now, hash);
        }
        self.failures.push((now, hash));
        self.last_failure = Some(now);
        let ghost all = failure_texts(self.failures@);
        let window: u128 = (self.sample_window as u128) * 1_000_000;
        let mut kept: Vec<(u64, String)> = Vec::new();
        let mut i: usize = 0;
        assert(failure_texts(kept@) =~= recent_failures(all.take(0), now, self.sample_window));
        while i < self.failures.len()
            invariant
                i <= self.failures.len(),
                all == failure_texts(self.failures@),
                window == micros(self.sample_window),
                failure_texts(kept@) == recent_failures(all.take(i as int), now, self.sample_window),
            decreases self.failures.len() - i,
        {
            let t: u64 = self.failures[i].0;
            assert(all.take(i + 1).drop_last() =~= all.take(i as int));
            assert(all.take(i + 1).last() == all[i as int]);
            if (t as u128) + window > (now as u128) {
                let h = self.failures[i].1.clone();
                proof {
                    lemma_failure_texts_push(kept@, t, h);
                }
                kept.push((t, h));
            }
            i += 1;
        }
        assert(all.take(self.failures.len() as int) =~= all);
        self.failures = kept;
        if self.failures.len() >= self.failure_threshold {
            self.state = CircuitState::Open;
            self.opened_at = Some(now);
        }
    }

    /// Puts a timeout on record, at the time the clock shows.
    pub fn record_timeout(&mut self, command_hash: &str)
        ensures
            exists|now: u64| final(self)@ == old(self)@.after_timeout(command_hash@, now),
    {
        let now = now_micros();
        self.record_timeout_at(command_hash, now);
    }

    /// Takes note of a success.
    pub fn record_success(&mut self)
        ensures
            final(self)@ == old(self)@.after_success(),
    {
        if self.state == CircuitState::HalfOpen {
            self.state = CircuitState::Closed;
            self.failures = Vec::new();
            assert(failure_texts(self.failures@) =~= Seq::<Failure>::empty());
        }
    }

    /// Whether a command may run at `now`, and what to tell the caller.
    pub fn should_allow_at(&mut self, now: u64) -> (r: (bool, Option<String>))
        ensures
            r.0 == old(self)@.allows(now),
            text_of(r.1) == old(self)@.allow_message(now),
            final(self)@ == old(self)@.after_allow(now),
    {
        match self.state {
            CircuitState::Closed => (true, None),
            CircuitState::Open => {
                match self.opened_at {
                    Some(opened) => {
                        let pause: u128 = (self.recovery_timeout as u128) * 1_000_000;
                        if now > opened && ((now - opened) as u128) > pause {
                            self.state = CircuitState::HalfOpen;
                            self.opened_at = None;
                            (true, Some("NEVERHANG: Circuit half-open, testing recovery".to_owned()))
                        } else {
                            let left: u128 = pause + (opened as u128) - (now as u128);
                            let seconds: u128 = left / 1_000_000;
                            let shown: u64 = if seconds > 0x7fff_ffff_ffff_ffff {
                                0x7fff_ffff_ffff_ffff
                            } else {
                                seconds as u64
                            };
                            let mut message = chars_of("NEVERHANG: Circuit OPEN due to ");
                            extend_unsigned(&mut message, self.failures.len() as u64);
                            extend_str(&mut message, " recent timeouts. Retry in ");
                            extend_unsigned(&mut message, shown);
                            extend_str(&mut message, "s");
                            (false, Some(string_of(&message)))
                        }
                    },
                    None => (false, Some("NEVERHANG: Circuit OPEN".to_owned())),
                }
            },
            CircuitState::HalfOpen => (
                true,
                Some("NEVERHANG: Circuit half-open, monitoring".to_owned()),
            ),
        }
    }

    /// Whether a command may run now, and what to tell the caller.
    pub fn should_allow(&mut self) -> (r: (bool, Option<String>))
        ensures
            exists|now: u64|
                {
                    &&& r.0 == old(self)@.allows(now)
                    &&& text_of(r.1) == old(self)@.allow_message(now)
                    &&& final(self)@ == old(self)@.after_allow(now)
                },
    {
        let now = now_micros();
        self.should_allow_at(now)
    }

    /// Closes the breaker and clears its record.
    pub fn reset(&mut self)
        ensures
            final(self)@ == old(self)@.after_reset(),
    {
        self.state = CircuitState::Closed;
        self.failures = Vec::new();
        self.last_failure = None;
        self.opened_at = None;
        assert(failure_texts(self.failures@) =~= Seq::<Failure>::empty());
    }

    /// The breaker's state at `now`, for a report.
    pub fn get_status_at(&self, now: u64) -> (r: CircuitStatus)
        ensures
            reports(r, self@, now),
    {
        let time_until_retry: Option<u64> = match self.opened_at {
            Some(opened) => {
                let pause: u128 = (self.recovery_timeout as u128) * 1_000_000;
                let due: u128 = pause + (opened as u128);
                if due <= (now as u128) {
                    Some(0)
                } else {
                    let seconds: u128 = (due - (now as u128)) / 1_000_000;
                    if seconds > 0xffff_ffff_ffff_ffff {
                        Some(0xffff_ffff_ffff_ffff)
                    } else {
                        Some(seconds as u64)
                    }
                }
            },
            None => None,
        };
        CircuitStatus {
            state: self.state.to_string(),
            recent_failures: self.failures.len(),
            failure_threshold: self.failure_threshold,
            recovery_timeout: self.recovery_timeout,
            opened_at: self.opened_at,
            time_until_retry,
        }
    }

    /// The breaker's state now, for a report.
    pub fn get_status(&self) -> (r: CircuitStatus)
        ensures
            exists|now: u64| #[trigger] reports(r, self@, now),
    {
        let now = now_micros();
        self.get_status_at(now)
    }
}

/// Whether `status` is the report of the breaker `b` at `now`.
pub open spec fn reports(status: CircuitStatus, b: Breaker, now: u64) -> bool {
    &&& status.state@ == state_word(b.state)
    &&& status.recent_failures == b.failures.len()
    &&& status.failure_threshold == b.failure_threshold
    &&& status.recovery_timeout == b.recovery_timeout
    &&& status.opened_at == b.opened_at
    &&& status.time_until_retry == match b.opened_at {
        Some(_) => Some(at_most(b.seconds_left(now), u64::MAX as int) as u64),
        None => None,
    }
}

/// The breaker after the first `k` of a series of timeouts.
pub open spec fn after_timeouts(
    b: Breaker,
    times: Seq<u64>,
    hashes: Seq<Seq<char>>,
    k: nat,
) -> Breaker
    decreases k,
{
    if k == 0 {
        b
    } else {
        after_timeouts(b, times, hashes, (k - 1) as nat).after_timeout(hashes[k - 1], times[k - 1])
    }
}

/// A series of times in which none is earlier than the one before it.
pub open spec fn in_order(times: Seq<u64>) -> bool {
    forall|i: int, j: int| 0 <= i <= j < times.len() ==> times[i] <= times[j]
}

/// Timeouts that are all within the window stay on record.
pub proof fn lemma_all_recent(failures: Seq<Failure>, now: u64, window: u64)
    requires
        forall|i: int| 0 <= i < failures.len() ==> in_window((#[trigger] failures[i]).0, now, window),
    ensures
        recent_failures(failures, now, window) == failures,
    decreases failures.len(),
{
    if failures.len() > 0 {
        let front = failures.drop_last();
        assert forall|i: int| 0 <= i < front.len() implies in_window(
            (#[trigger] front[i]).0,
            now,
            window,
        ) by {
            assert(front[i] == failures[i]);
        }
        lemma_all_recent(front, now, window);
        assert(front.push(failures.last()) =~= failures);
    }
}

/// While a series of timeouts that fits in one window has not reached the
/// threshold, the breaker stays closed and keeps every timeout on record;
/// with the timeout that reaches it, the breaker opens.
pub proof fn lemma_timeouts_accumulate(
    threshold: usize,
    recovery: u64,
    window: u64,
    times: Seq<u64>,
    hashes: Seq<Seq<char>>,
    k: nat,
)
    requires
        1 <= threshold,
        times.len() == threshold,
        hashes.len() == threshold,
        in_order(times),
        times.last() - times[0] < micros(window),
        k <= threshold,
    ensures
        ({
            let b = after_timeouts(Breaker::fresh(threshold, recovery, window), times, hashes, k);
            &&& b.failures.len() == k
            &&& forall|i: int| 0 <= i < k ==> (#[trigger] b.failures[i]).0 == times[i]
            &&& b.failure_threshold == threshold
            &&& b.recovery_timeout == recovery
            &&& b.sample_window == window
            &&& k < threshold ==> b.state == CircuitState::Closed && b.opened_at is None
            &&& k == threshold ==> b.state == CircuitState::Open && b.opened_at == Some(
                times.last(),
            )
        }),
    decreases k,
{
    if k > 0 {
        lemma_timeouts_accumulate(threshold, recovery, window, times, hashes, (k - 1) as nat);
        let before = after_timeouts(
            Breaker::fresh(threshold, recovery, window),
            times,
            hashes,
            (k - 1) as nat,
        );
        let now = times[k - 1];
        let all = before.failures.push((now, hashes[k - 1]));
        assert forall|i: int| 0 <= i < all.len() implies in_window(
            (#[trigger] all[i]).0,
            now,
            window,
        ) by {
            if i < k - 1 {
                assert(all[i] == before.failures[i]);
            }
            assert(all[i].0 == times[i]);
            assert(times[0] <= times[i]);
            assert(now <= times.last());
        }
        lemma_all_recent(all, now, window);
    }
}

/// After as many timeouts as the threshold asks for, all within one sample
/// window, the breaker is open and refuses commands until the recovery
/// time has passed. The first time it is asked after that, it lets the
/// command run and goes on probation; a success then closes it and clears
/// its record.
pub proof fn lemma_breaker_opens_and_recovers(
    threshold: usize,
    recovery: u64,
    window: u64,
    times: Seq<u64>,
    hashes: Seq<Seq<char>>,
    early: u64,
    late: u64,
)
    requires
        1 <= threshold,
        times.len() == threshold,
        hashes.len() == threshold,
        in_order(times),
        times.last() - times[0] < micros(window),
        early - times.last() <= micros(recovery),
        late - times.last() > micros(recovery),
    ensures
        ({
            let open = after_timeouts(
                Breaker::fresh(threshold, recovery, window),
                times,
                hashes,
                threshold as nat,
            );
            let probing = open.after_allow(late);
            let closed = probing.after_success();
            &&& open.wf()
            &&& open.state == CircuitState::Open
            &&& !open.allows(early)
            &&& open.after_allow(early) == open
            &&& open.allows(late)
            &&& open.allow_message(late) == Some(text_half_open_testing())
            &&& probing.state == CircuitState::HalfOpen
            &&& probing.wf()
            &&& closed.state == CircuitState::Closed
            &&& closed.failures.len() == 0
            &&& closed.wf()
            &&& closed.allows(late)
        }),
{
    lemma_timeouts_accumulate(threshold, recovery, window, times, hashes, threshold as nat);
}

/// Every step keeps the breaker open exactly while the time of opening is set.
pub proof fn lemma_steps_keep_wf(b: Breaker, hash: Seq<char>, now: u64)
    requires
        b.wf(),
    ensures
        b.after_timeout(hash, now).wf(),
        b.after_success().wf(),
        b.after_allow(now).wf(),
        b.after_reset().wf(),
{
}

} // verus!
