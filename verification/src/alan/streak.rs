use vstd::prelude::*;

verus! {

/// The run of equal results that a fingerprint is in, and the longest runs
/// it has had.
#[derive(Clone, Copy, Debug, PartialEq, Eq, Structural)]
pub struct Streak {
    /// Positive: that many successes in a row. Negative: that many failures.
    pub current_streak: i64,
    pub longest_success_streak: i64,
    pub longest_fail_streak: i64,
    /// Whether the latest run of the command succeeded.
    pub last_result: bool,
}

pub open spec fn larger(a: int, b: int) -> int {
    if a >= b {
        a
    } else {
        b
    }
}

/// One more, unless the counter is at its limit.
pub open spec fn counted_up(c: int) -> int {
    if c < i64::MAX {
        c + 1
    } else {
        c
    }
}

/// One less, unless the counter is at its limit.
pub open spec fn counted_down(c: int) -> int {
    if c > -i64::MAX {
        c - 1
    } else {
        -i64::MAX
    }
}

impl Streak {
    /// The sign of the run matches the latest result, and no run is
    /// longer than the longest on record.
    pub open spec fn wf(self) -> bool {
        &&& self.last_result ==> self.current_streak >= 1
        &&& !self.last_result ==> -i64::MAX <= self.current_streak <= -1
        &&& self.longest_success_streak >= larger(self.current_streak as int, 0)
        &&& self.longest_fail_streak >= larger(-self.current_streak, 0)
    }
}

/// The streak of a fingerprint with a single run.
pub open spec fn first_streak(success: bool) -> Streak {
    if success {
        Streak {
            current_streak: 1,
            longest_success_streak: 1,
            longest_fail_streak: 0,
            last_result: true,
        }
    } else {
        Streak {
            current_streak: -1i64,
            longest_success_streak: 0,
            longest_fail_streak: 1,
            last_result: false,
        }
    }
}

/// The streak after one more run. A result like the last one extends the
/// run, another result starts a run of one; either way the longest run
/// on record of that result is at least as long as the run.
pub open spec fn streak_after(prior: Option<Streak>, success: bool) -> Streak {
    match prior {
        None => first_streak(success),
        Some(s) => if success == s.last_result {
            if success {
                let c = counted_up(s.current_streak as int);
                Streak {
                    current_streak: c as i64,
                    longest_success_streak: larger(s.longest_success_streak as int, c) as i64,
                    longest_fail_streak: s.longest_fail_streak,
                    last_result: true,
                }
            } else {
                let c = counted_down(s.current_streak as int);
                Streak {
                    current_streak: c as i64,
                    longest_success_streak: s.longest_success_streak,
                    longest_fail_streak: larger(s.longest_fail_streak as int, -c) as i64,
                    last_result: false,
                }
            }
        } else if success {
            Streak {
                current_streak: 1,
                longest_success_streak: larger(s.longest_success_streak as int, 1) as i64,
                longest_fail_streak: s.longest_fail_streak,
                last_result: true,
            }
        } else {
            Streak {
                current_streak: -1i64,
                longest_success_streak: s.longest_success_streak,
                longest_fail_streak: larger(s.longest_fail_streak as int, 1) as i64,
                last_result: false,
            }
        },
    }
}

/// The streak of a fingerprint after one more run with the given result;
/// `prior` is its streak so far, `None` where it has none.
pub fn update_streak(prior: Option<Streak>, success: bool) -> (r: Streak)
    ensures
        r == streak_after(prior, success),
{
    match prior {
        None => {
            if success {
                Streak {
                    current_streak: 1,
                    longest_success_streak: 1,
                    longest_fail_streak: 0,
                    last_result: true,
                }
            } else {
                Streak {
                    current_streak: -1,
                    longest_success_streak: 0,
                    longest_fail_streak: 1,
                    last_result: false,
                }
            }
        },
        Some(s) => {
            if success == s.last_result {
                if success {
                    let c: i64 = if s.current_streak < i64::MAX {
                        s.current_streak + 1
                    } else {
                        s.current_streak
                    };
                    Streak {
                        current_streak: c,
                        longest_success_streak: if s.longest_success_streak >= c {
                            s.longest_success_streak
                        } else {
                            c
                        },
                        longest_fail_streak: s.longest_fail_streak,
                        last_result: true,
                    }
                } else {
                    let c: i64 = if s.current_streak > -i64::MAX {
                        s.current_streak - 1
                    } else {
                        -i64::MAX
                    };
                    Streak {
                        current_streak: c,
                        longest_success_streak: s.longest_success_streak,
                        longest_fail_streak: if s.longest_fail_streak >= -c {
                            s.longest_fail_streak
                        } else {
                            -c
                        },
                        last_result: false,
                    }
                }
            } else if success {
                Streak {
                    current_streak: 1,
                    longest_success_streak: if s.longest_success_streak >= 1 {
                        s.longest_success_streak
                    } else {
                        1
                    },
                    longest_fail_streak: s.longest_fail_streak,
                    last_result: true,
                }
            } else {
                Streak {
                    current_streak: -1,
                    longest_success_streak: s.longest_success_streak,
                    longest_fail_streak: if s.longest_fail_streak >= 1 {
                        s.longest_fail_streak
                    } else {
                        1
                    },
                    last_result: false,
                }
            }
        },
    }
}

/// The streak after `k` more runs that all had the result `success`.
pub open spec fn streak_after_run(prior: Option<Streak>, success: bool, k: nat) -> Option<Streak>
    decreases k,
{
    if k == 0 {
        prior
    } else {
        Some(streak_after(streak_after_run(prior, success, (k - 1) as nat), success))
    }
}

/// An update keeps a streak well formed, and the first update makes one.
pub proof fn lemma_update_keeps_wf(prior: Option<Streak>, success: bool)
    requires
        prior matches Some(s) ==> s.wf(),
    ensures
        streak_after(prior, success).wf(),
{
}

/// After `k` successes in a row, on a fingerprint that is new or whose
/// latest run failed, the current streak is `k` and the longest streak
/// of successes is at least `k`.
pub proof fn lemma_successes_count(prior: Option<Streak>, k: nat)
    requires
        1 <= k <= i64::MAX,
        prior matches Some(s) ==> s.wf() && !s.last_result,
    ensures
        streak_after_run(prior, true, k) matches Some(s) && s.wf() && s.current_streak == k
            && s.longest_success_streak >= k && s.last_result,
    decreases k,
{
    if k > 1 {
        lemma_successes_count(prior, (k - 1) as nat);
    } else {
        assert(streak_after_run(prior, true, 0) == prior);
    }
}

/// After `k` failures in a row, on a fingerprint that is new or whose
/// latest run succeeded, the current streak is `-k` and the longest
/// streak of failures is at least `k`.
pub proof fn lemma_failures_count(prior: Option<Streak>, k: nat)
    requires
        1 <= k <= i64::MAX,
        prior matches Some(s) ==> s.wf() && s.last_result,
    ensures
        streak_after_run(prior, false, k) matches Some(s) && s.wf() && s.current_streak == -k
            && s.longest_fail_streak >= k && !s.last_result,
    decreases k,
{
    if k > 1 {
        lemma_failures_count(prior, (k - 1) as nat);
    } else {
        assert(streak_after_run(prior, false, 0) == prior);
    }
}

/// A failure after a success sets the current streak to -1 and leaves the
/// longest streak of successes as it was.
pub proof fn lemma_failure_resets(s: Streak)
    requires
        s.last_result,
    ensures
        streak_after(Some(s), false).current_streak == -1,
        streak_after(Some(s), false).longest_success_streak == s.longest_success_streak,
{
}

} // verus!
