//! Per-key token-bucket rate limiter with lazy refill.
//!
//! Each key holds a bucket of tokens, counted here in thousandths so that
//! fractional refill rates need no floating point.  A check refills the
//! bucket from the elapsed time, then admits the request if a whole token
//! is available and consumes it.  A sweep drops fully refilled buckets to
//! cap memory.

use vstd::prelude::*;
use crate::strutil::{clone_string, str_eq};

verus! {

/// One key's bucket: tokens in thousandths, and the moment of the last
/// refill on the millisecond clock.
pub struct Bucket {
    pub milli_tokens: u64,
    pub last_refill_ms: u64,
}

/// The limiter: one bucket per key, a burst capacity, and a refill rate in
/// thousandths of a token per second.
pub struct RateLimiter {
    pub buckets: Vec<(String, Bucket)>,
    pub max_tokens: u32,
    pub rate_milli_per_sec: u64,
}

/// The burst capacity in thousandths.
pub open spec fn spec_max_milli(max_tokens: u32) -> int {
    max_tokens as int * 1000
}

/// A bucket's fill after refilling at `now`: the elapsed milliseconds times
/// the rate, capped at the burst capacity.  A clock reading older than the
/// bucket's adds nothing.
pub open spec fn spec_refill(milli: int, last: int, now: int, max_milli: int, rate: int) -> int {
    let elapsed = if now >= last {
        now - last
    } else {
        0
    };
    let filled = milli + (elapsed * rate) / 1000;
    if filled > max_milli {
        max_milli
    } else {
        filled
    }
}

/// Whether a check at `now` admits: a whole token is available after
/// refill.
pub open spec fn spec_admits(milli: int, last: int, now: int, max_milli: int, rate: int) -> bool {
    spec_refill(milli, last, now, max_milli, rate) >= 1000
}

/// The bucket's fill after a check at `now`: the refilled amount, minus a
/// whole token when the check admitted.
pub open spec fn spec_after_check(
    milli: int,
    last: int,
    now: int,
    max_milli: int,
    rate: int,
) -> int {
    if spec_admits(milli, last, now, max_milli, rate) {
        spec_refill(milli, last, now, max_milli, rate) - 1000
    } else {
        spec_refill(milli, last, now, max_milli, rate)
    }
}

/// The bucket stored under a key, if any.
pub open spec fn spec_find_bucket(s: Seq<(String, Bucket)>, key: Seq<char>) -> Option<Bucket>
    decreases s.len(),
{
    if s.len() == 0 {
        Option::None
    } else if s[0].0@ == key {
        Option::Some(s[0].1)
    } else {
        spec_find_bucket(s.drop_first(), key)
    }
}

/// Everything one check at clock reading `now` does: the answer is the
/// admission decision for the key's bucket (a missing key starts full),
/// that bucket ends refilled, charged when admitted, and stamped with the
/// reading; every other key is untouched, as are the limiter's parameters.
pub open spec fn spec_check_post(
    pre: RateLimiter,
    post: RateLimiter,
    key: Seq<char>,
    now: int,
    r: bool,
) -> bool {
    let maxm = spec_max_milli(pre.max_tokens);
    let rate = pre.rate_milli_per_sec as int;
    let state: (int, int) = match spec_find_bucket(pre.buckets@, key) {
        Option::Some(b) => (b.milli_tokens as int, b.last_refill_ms as int),
        Option::None => (maxm, now),
    };
    &&& post.max_tokens == pre.max_tokens
    &&& post.rate_milli_per_sec == pre.rate_milli_per_sec
    &&& r == spec_admits(state.0, state.1, now, maxm, rate)
    &&& (spec_find_bucket(post.buckets@, key) matches Option::Some(b2) && b2.milli_tokens as int
        == spec_after_check(state.0, state.1, now, maxm, rate) && b2.last_refill_ms as int == now)
    &&& forall|k2: Seq<char>|
        k2 != key ==> #[trigger] spec_find_bucket(post.buckets@, k2) == spec_find_bucket(
            pre.buckets@,
            k2,
        )
}

/// Everything one sweep at clock reading `now` does: a key survives with
/// its bucket untouched exactly when that bucket would still be below the
/// burst capacity after refilling at `now`; the parameters are untouched.
pub open spec fn spec_cleanup_post(pre: RateLimiter, post: RateLimiter, now: int) -> bool {
    let maxm = spec_max_milli(pre.max_tokens);
    let rate = pre.rate_milli_per_sec as int;
    &&& post.max_tokens == pre.max_tokens
    &&& post.rate_milli_per_sec == pre.rate_milli_per_sec
    &&& forall|k: Seq<char>|
        #[trigger] spec_find_bucket(post.buckets@, k) == (match spec_find_bucket(
            pre.buckets@,
            k,
        ) {
            Option::Some(b) => {
                if spec_refill(b.milli_tokens as int, b.last_refill_ms as int, now, maxm, rate)
                    < maxm {
                    Option::Some(b)
                } else {
                    Option::None
                }
            },
            Option::None => Option::None,
        })
}

impl RateLimiter {
    /// Every stored key occurs once and no bucket exceeds the burst
    /// capacity.
    pub open spec fn wf(self) -> bool {
        &&& forall|i: int, j: int|
            0 <= i < j < self.buckets@.len() ==> (#[trigger] self.buckets@[i]).0@ != (
            #[trigger] self.buckets@[j]).0@
        &&& forall|i: int|
            0 <= i < self.buckets@.len() ==> (#[trigger] self.buckets@[i]).1.milli_tokens as int
                <= spec_max_milli(self.max_tokens)
    }

    /// A fresh limiter with the given burst capacity and refill rate in
    /// thousandths of a token per second.
    pub fn new(max_tokens: u32, rate_milli_per_sec: u64) -> (r: RateLimiter)
        ensures
            r.wf(),
            r.max_tokens == max_tokens,
            r.rate_milli_per_sec == rate_milli_per_sec,
            r.buckets@.len() == 0,
    {
        RateLimiter { buckets: Vec::new(), max_tokens, rate_milli_per_sec }
    }

    fn find_index(&self, key: &str) -> (r: Option<usize>)
        ensures
            r matches Some(i) ==> i < self.buckets@.len() && self.buckets@[i as int].0@ == key@
                && spec_find_bucket(self.buckets@, key@) == Option::Some(
                self.buckets@[i as int].1,
            ),
            r is None ==> spec_find_bucket(self.buckets@, key@) is None,
    {
        let n = self.buckets.len();
        proof {
            assert(self.buckets@.subrange(0, n as int) =~= self.buckets@);
        }
        let mut i: usize = 0;
        while i < n
            invariant
                n == self.buckets@.len(),
                i <= n,
                spec_find_bucket(self.buckets@, key@) == spec_find_bucket(
                    self.buckets@.subrange(i as int, n as int),
                    key@,
                ),
            decreases n - i,
        {
            proof {
                assert(self.buckets@.subrange(i as int, n as int)[0] == self.buckets@[i as int]);
            }
            if str_eq(self.buckets[i].0.as_str(), key) {
                return Some(i);
            }
            i = i + 1;
            proof {
                assert(self.buckets@.subrange(i - 1, n as int).drop_first() =~= self.buckets@
                    .subrange(i as int, n as int));
            }
        }
        proof {
            assert(self.buckets@.subrange(i as int, n as int).len() == 0);
        }
        None
    }

    /// Check one request for `key` at clock reading `now_ms`: refill the
    /// key's bucket (a missing key starts full), pass if a whole token is
    /// there, and consume it.  Other keys are untouched.
    pub fn check_at(&mut self, key: &str, now_ms: u64) -> (r: bool)
        requires
            old(self).wf(),
        ensures
            final(self).wf(),
            spec_check_post(*old(self), *final(self), key@, now_ms as int, r),
    {
        let maxm: u64 = (self.max_tokens as u64) * 1000;
        let rate: u64 = self.rate_milli_per_sec;
        let idx = self.find_index(key);
        match idx {
            Some(i) => {
                let b = &self.buckets[i].1;
                let m0 = b.milli_tokens;
                let l0 = b.last_refill_ms;
                let elapsed: u64 = if now_ms >= l0 {
                    now_ms - l0
                } else {
                    0
                };
                proof {
                    lemma_milli_math(elapsed as int, rate as int, m0 as int);
                }
                let added: u128 = (elapsed as u128) * (rate as u128) / 1000;
                let filled_wide: u128 = (m0 as u128) + added;
                let filled: u64 = if filled_wide > (maxm as u128) {
                    maxm
                } else {
                    proof {
                        assert(filled_wide <= maxm as u128);
                    }
                    filled_wide as u64
                };
                let (passed, left): (bool, u64) = if filled >= 1000 {
                    (true, filled - 1000)
                } else {
                    (false, filled)
                };
                let key_copy = clone_string(&self.buckets[i].0);
                let ghost before = self.buckets@;
                self.buckets[i] = (key_copy, Bucket { milli_tokens: left, last_refill_ms: now_ms });
                proof {
                    assert(forall|j: int|
                        0 <= j < before.len() && j != i ==> self.buckets@[j] == before[j]);
                    assert(self.buckets@[i as int].0@ == before[i as int].0@);
                    lemma_find_bucket_update(before, self.buckets@, i as int, key@);
                    assert forall|j1: int, j2: int|
                        0 <= j1 < j2 < self.buckets@.len() implies (
                    #[trigger] self.buckets@[j1]).0@ != (#[trigger] self.buckets@[j2]).0@ by {
                        assert(self.buckets@[j1].0@ == before[j1].0@);
                        assert(self.buckets@[j2].0@ == before[j2].0@);
                        assert(before[j1].0@ != before[j2].0@);
                    }
                }
                passed
            },
            None => {
                // a new key starts with a full bucket
                let m0 = maxm;
                let (passed, left): (bool, u64) = if m0 >= 1000 {
                    (true, m0 - 1000)
                } else {
                    (false, m0)
                };
                let ghost before = self.buckets@;
                self.buckets.push(
                    (String::from_str(key), Bucket { milli_tokens: left, last_refill_ms: now_ms }),
                );
                proof {
                    assert(self.buckets@.drop_last() =~= before);
                    lemma_find_bucket_snoc(
                        before,
                        self.buckets@,
                        key@,
                        self.buckets@[before.len() as int].1,
                    );
                    lemma_find_none_not_present(before, key@);
                    assert forall|j1: int, j2: int|
                        0 <= j1 < j2 < self.buckets@.len() implies (
                    #[trigger] self.buckets@[j1]).0@ != (#[trigger] self.buckets@[j2]).0@ by {
                        if j2 < before.len() {
                            assert(self.buckets@[j1] == before[j1]);
                            assert(self.buckets@[j2] == before[j2]);
                        } else {
                            assert(self.buckets@[j1] == before[j1]);
                            assert(before[j1].0@ != key@);
                        }
                    }
                    assert(spec_refill(m0 as int, now_ms as int, now_ms as int,
                        spec_max_milli(self.max_tokens), rate as int) == m0 as int);
                }
                passed
            },
        }
    }

    /// Check one request for `key` against the clock: at some reading the
    /// wrapper produced, the bucket arithmetic admitted or rejected exactly
    /// as `check_at` says.
    pub fn check(&mut self, key: &str) -> (r: bool)
        requires
            old(self).wf(),
        ensures
            final(self).wf(),
            exists|now: int| spec_check_post(*old(self), *final(self), key@, now, r),
    {
        let now = wall_clock_ms();
        let r = self.check_at(key, now);
        proof {
            assert(spec_check_post(*old(self), *self, key@, now as int, r));
        }
        r
    }

    /// Sweep at clock reading `now_ms`, capping the map's size: a key
    /// survives, with its bucket unchanged, exactly when its refill at
    /// `now_ms` stays below the burst capacity; a fully refilled bucket is
    /// dropped, indistinguishable from the fresh one its next check mints.
    pub fn cleanup_at(&mut self, now_ms: u64)
        requires
            old(self).wf(),
        ensures
            final(self).wf(),
            spec_cleanup_post(*old(self), *final(self), now_ms as int),
    {
        let maxm: u64 = (self.max_tokens as u64) * 1000;
        let rate: u64 = self.rate_milli_per_sec;
        let n = self.buckets.len();
        let mut kept: Vec<(String, Bucket)> = Vec::new();
        let mut i: usize = 0;
        while i < n
            invariant
                n == self.buckets@.len(),
                i <= n,
                old(self) == self,
                self.wf(),
                maxm as int == spec_max_milli(self.max_tokens),
                rate == self.rate_milli_per_sec,
                forall|j: int|
                    0 <= j < kept@.len() ==> exists|j0: int|
                        0 <= j0 < i && #[trigger] kept@[j] == self.buckets@[j0],
                forall|j1: int, j2: int|
                    0 <= j1 < j2 < kept@.len() ==> (#[trigger] kept@[j1]).0@ != (
                    #[trigger] kept@[j2]).0@,
                forall|j: int|
                    0 <= j < i ==> #[trigger] spec_find_bucket(kept@, self.buckets@[j].0@) == (
                    if spec_refill(
                        self.buckets@[j].1.milli_tokens as int,
                        self.buckets@[j].1.last_refill_ms as int,
                        now_ms as int,
                        maxm as int,
                        rate as int,
                    ) < maxm as int {
                        Option::Some(self.buckets@[j].1)
                    } else {
                        Option::None
                    }),
            decreases n - i,
        {
            let ghost kept_before = kept@;
            let b = &self.buckets[i].1;
            let elapsed: u64 = if now_ms >= b.last_refill_ms {
                now_ms - b.last_refill_ms
            } else {
                0
            };
            proof {
                lemma_milli_math(elapsed as int, rate as int, b.milli_tokens as int);
            }
            let added: u128 = (elapsed as u128) * (rate as u128) / 1000;
            let refilled: u128 = (b.milli_tokens as u128) + added;
            proof {
                // the key just examined is on no kept entry yet
                assert(spec_find_bucket(kept_before, self.buckets@[i as int].0@) is None) by {
                    if spec_find_bucket(kept_before, self.buckets@[i as int].0@) is Some {
                        lemma_find_some_index(kept_before, self.buckets@[i as int].0@);
                        let j = choose|j: int|
                            0 <= j < kept_before.len() && (#[trigger] kept_before[j]).0@
                                == self.buckets@[i as int].0@;
                        let j0 = choose|j0: int|
                            0 <= j0 < i && #[trigger] kept_before[j] == self.buckets@[j0];
                        assert(self.buckets@[j0].0@ != self.buckets@[i as int].0@);
                    }
                }
                assert((refilled < maxm as u128) == (spec_refill(
                    self.buckets@[i as int].1.milli_tokens as int,
                    self.buckets@[i as int].1.last_refill_ms as int,
                    now_ms as int,
                    maxm as int,
                    rate as int,
                ) < maxm as int));
            }
            if refilled < (maxm as u128) {
                let key_copy = clone_string(&self.buckets[i].0);
                let bucket_copy = Bucket {
                    milli_tokens: b.milli_tokens,
                    last_refill_ms: b.last_refill_ms,
                };
                kept.push((key_copy, bucket_copy));
                proof {
                    assert(kept@.drop_last() =~= kept_before);
                    assert(kept@[kept@.len() - 1] == (key_copy, bucket_copy));
                    assert(kept@[kept@.len() - 1] == self.buckets@[i as int]);
                    assert forall|j: int| 0 <= j < kept@.len() implies exists|j0: int|
                        0 <= j0 < i + 1 && #[trigger] kept@[j] == self.buckets@[j0] by {
                        if j < kept@.len() - 1 {
                            assert(kept@[j] == kept_before[j]);
                            let j0 = choose|j0: int|
                                0 <= j0 < i && #[trigger] kept_before[j] == self.buckets@[j0];
                            assert(kept@[j] == self.buckets@[j0]);
                        } else {
                            assert(kept@[j] == self.buckets@[i as int]);
                        }
                    }
                    assert forall|j1: int, j2: int|
                        0 <= j1 < j2 < kept@.len() implies (#[trigger] kept@[j1]).0@ != (
                    #[trigger] kept@[j2]).0@ by {
                        if j2 == kept@.len() - 1 {
                            let j0 = choose|j0: int|
                                0 <= j0 < i && #[trigger] kept_before[j1] == self.buckets@[j0];
                            assert(kept@[j1].0@ == self.buckets@[j0].0@);
                            assert(self.buckets@[j0].0@ != self.buckets@[i as int].0@);
                        } else {
                            assert(kept@[j1] == kept_before[j1] && kept@[j2] == kept_before[j2]);
                        }
                    }
                    assert forall|j: int| 0 <= j < i + 1 implies #[trigger] spec_find_bucket(
                        kept@,
                        self.buckets@[j].0@,
                    ) == (if spec_refill(
                        self.buckets@[j].1.milli_tokens as int,
                        self.buckets@[j].1.last_refill_ms as int,
                        now_ms as int,
                        maxm as int,
                        rate as int,
                    ) < maxm as int {
                        Option::Some(self.buckets@[j].1)
                    } else {
                        Option::None
                    }) by {
                        if j < i {
                            assert(self.buckets@[j].0@ != self.buckets@[i as int].0@);
                            if spec_find_bucket(kept_before, self.buckets@[j].0@) is Some {
                                lemma_find_bucket_extend(kept_before, kept@, self.buckets@[j].0@);
                            } else {
                                lemma_find_bucket_snoc_any(kept_before, kept@, self.buckets@[j].0@);
                            }
                        } else {
                            lemma_find_bucket_snoc_any(kept_before, kept@, self.buckets@[j].0@);
                        }
                    }
                }
            } else {
                proof {
                    assert forall|j: int| 0 <= j < i + 1 implies #[trigger] spec_find_bucket(
                        kept@,
                        self.buckets@[j].0@,
                    ) == (if spec_refill(
                        self.buckets@[j].1.milli_tokens as int,
                        self.buckets@[j].1.last_refill_ms as int,
                        now_ms as int,
                        maxm as int,
                        rate as int,
                    ) < maxm as int {
                        Option::Some(self.buckets@[j].1)
                    } else {
                        Option::None
                    }) by {
                    }
                }
            }
            i = i + 1;
        }
        proof {
            assert forall|j: int| 0 <= j < kept@.len() implies (
            #[trigger] kept@[j]).1.milli_tokens as int <= spec_max_milli(self.max_tokens) by {
                let j0 = choose|j0: int| 0 <= j0 < i && #[trigger] kept@[j] == self.buckets@[j0];
                assert(self.buckets@[j0].1.milli_tokens as int <= spec_max_milli(self.max_tokens));
            }
            assert forall|k: Seq<char>| #[trigger] spec_find_bucket(kept@, k) == (
            match spec_find_bucket(self.buckets@, k) {
                Option::Some(b) => {
                    if spec_refill(
                        b.milli_tokens as int,
                        b.last_refill_ms as int,
                        now_ms as int,
                        maxm as int,
                        rate as int,
                    ) < maxm as int {
                        Option::Some(b)
                    } else {
                        Option::None
                    }
                },
                Option::None => Option::None,
            }) by {
                if spec_find_bucket(self.buckets@, k) is Some {
                    lemma_find_some_index(self.buckets@, k);
                    let j = choose|j: int|
                        0 <= j < self.buckets@.len() && (#[trigger] self.buckets@[j]).0@ == k;
                    lemma_find_unique(self.buckets@, j);
                    assert(spec_find_bucket(kept@, self.buckets@[j].0@) == (if spec_refill(
                        self.buckets@[j].1.milli_tokens as int,
                        self.buckets@[j].1.last_refill_ms as int,
                        now_ms as int,
                        maxm as int,
                        rate as int,
                    ) < maxm as int {
                        Option::Some(self.buckets@[j].1)
                    } else {
                        Option::None
                    }));
                } else {
                    lemma_find_none_not_present(self.buckets@, k);
                    if spec_find_bucket(kept@, k) is Some {
                        lemma_find_some_index(kept@, k);
                        let j = choose|j: int|
                            0 <= j < kept@.len() && (#[trigger] kept@[j]).0@ == k;
                        let j0 = choose|j0: int|
                            0 <= j0 < i && #[trigger] kept@[j] == self.buckets@[j0];
                        assert(self.buckets@[j0].0@ == k);
                    }
                }
            }
        }
        self.buckets = kept;
    }

    /// Sweep against the clock: at some reading the wrapper produced, the
    /// buckets were kept and dropped exactly as `cleanup_at` says.
    pub fn cleanup(&mut self)
        requires
            old(self).wf(),
        ensures
            final(self).wf(),
            exists|now: int| spec_cleanup_post(*old(self), *final(self), now),
    {
        let now = wall_clock_ms();
        self.cleanup_at(now);
        proof {
            assert(spec_cleanup_post(*old(self), *self, now as int));
        }
    }
}

// ---------------------------------------------------------------------------
// The limiter's laws
// ---------------------------------------------------------------------------

/// One key's bucket over a run of checks: its fill, its last refill moment,
/// and how many of the checks were admitted.
pub struct BucketRun {
    pub milli: int,
    pub last: int,
    pub admitted: int,
}

/// Fold the check step over a sequence of clock readings.
pub open spec fn spec_run(m0: int, l0: int, times: Seq<int>, maxm: int, rate: int) -> BucketRun
    decreases times.len(),
{
    if times.len() == 0 {
        BucketRun { milli: m0, last: l0, admitted: 0 }
    } else {
        let prev = spec_run(m0, l0, times.drop_last(), maxm, rate);
        let t = times.last();
        BucketRun {
            milli: spec_after_check(prev.milli, prev.last, t, maxm, rate),
            last: t,
            admitted: prev.admitted + if spec_admits(prev.milli, prev.last, t, maxm, rate) {
                1int
            } else {
                0int
            },
        }
    }
}

pub open spec fn spec_times_ordered(l0: int, times: Seq<int>) -> bool {
    &&& forall|i: int| 0 <= i < times.len() - 1 ==> #[trigger] times[i] <= times[i + 1]
    &&& times.len() > 0 ==> l0 <= times[0]
}

/// Integer division by a fixed positive denominator is superadditive.
proof fn lemma_div_superadd(a: int, b: int)
    requires
        a >= 0,
        b >= 0,
    ensures
        a / 1000 + b / 1000 <= (a + b) / 1000,
{
    let qa = a / 1000;
    let ra = a % 1000;
    let qb = b / 1000;
    let rb = b % 1000;
    vstd::arithmetic::div_mod::lemma_fundamental_div_mod(a, 1000);
    vstd::arithmetic::div_mod::lemma_fundamental_div_mod(b, 1000);
    vstd::arithmetic::div_mod::lemma_mod_bound(a, 1000);
    vstd::arithmetic::div_mod::lemma_mod_bound(b, 1000);
    assert((a + b) / 1000 >= qa + qb) by (nonlinear_arith)
        requires
            a == 1000 * qa + ra,
            b == 1000 * qb + rb,
            0 <= ra < 1000,
            0 <= rb < 1000,
    ;
}

/// Law: over any run of checks on one key, the number of admissions never
/// exceeds what the bucket held at the start plus what the window refilled:
/// `admitted <= burst + window * rate`, all in thousandths of a token.
pub proof fn lemma_admissions_bounded(m0: int, l0: int, times: Seq<int>, maxm: int, rate: int)
    requires
        0 <= m0 <= maxm,
        rate >= 0,
        spec_times_ordered(l0, times),
    ensures
        ({
            let run = spec_run(m0, l0, times, maxm, rate);
            &&& 0 <= run.milli <= maxm
            &&& l0 <= run.last
            &&& times.len() > 0 ==> run.last == times.last()
            &&& 1000 * run.admitted + run.milli <= m0 + ((run.last - l0) * rate) / 1000
        }),
    decreases times.len(),
{
    let run = spec_run(m0, l0, times, maxm, rate);
    if times.len() == 0 {
        assert(run.last - l0 == 0);
        assert((run.last - l0) * rate == 0) by (nonlinear_arith)
            requires
                run.last - l0 == 0,
        ;
    } else {
        let front = times.drop_last();
        assert(spec_times_ordered(l0, front)) by {
            assert(forall|i: int| 0 <= i < front.len() - 1 ==> #[trigger] front[i] <= front[i + 1]);
        }
        lemma_admissions_bounded(m0, l0, front, maxm, rate);
        let prev = spec_run(m0, l0, front, maxm, rate);
        let t = times.last();
        assert(prev.last <= t) by {
            if front.len() > 0 {
                assert(prev.last == front.last());
                assert(times[times.len() - 2] <= times[times.len() - 1]);
            }
        }
        let step = ((t - prev.last) * rate) / 1000;
        assert(step >= 0) by {
            assert((t - prev.last) * rate >= 0) by (nonlinear_arith)
                requires
                    t - prev.last >= 0,
                    rate >= 0,
            ;
            vstd::arithmetic::div_mod::lemma_div_is_ordered(0, (t - prev.last) * rate, 1000);
        }
        let filled = spec_refill(prev.milli, prev.last, t, maxm, rate);
        assert(1000 * run.admitted + run.milli == 1000 * prev.admitted + filled);
        assert(filled <= prev.milli + step);
        assert(((prev.last - l0) * rate) / 1000 + step <= ((t - l0) * rate) / 1000) by {
            assert((prev.last - l0) * rate >= 0) by (nonlinear_arith)
                requires
                    prev.last - l0 >= 0,
                    rate >= 0,
            ;
            assert((prev.last - l0) * rate + (t - prev.last) * rate == (t - l0) * rate)
                by (nonlinear_arith);
            lemma_div_superadd((prev.last - l0) * rate, (t - prev.last) * rate);
        }
    }
}

/// Law: a burst against a fresh full bucket admits exactly the burst.  When
/// every check shares the clock reading the bucket was created at, the
/// number of admissions is the smaller of the number of attempts and the
/// burst capacity in whole tokens.
pub proof fn lemma_burst_exact(t0: int, times: Seq<int>, maxm: int, rate: int)
    requires
        maxm >= 0,
        rate >= 0,
        forall|i: int| 0 <= i < times.len() ==> #[trigger] times[i] == t0,
    ensures
        ({
            let run = spec_run(maxm, t0, times, maxm, rate);
            run.admitted == if times.len() <= maxm / 1000 {
                times.len() as int
            } else {
                maxm / 1000
            }
        }),
    decreases times.len(),
{
    let run = spec_run(maxm, t0, times, maxm, rate);
    if times.len() > 0 {
        let front = times.drop_last();
        lemma_burst_exact(t0, front, maxm, rate);
        let prev = spec_run(maxm, t0, front, maxm, rate);
        assert(prev.last == t0) by {
            if front.len() > 0 {
                assert(front.last() == t0);
            }
        }
        lemma_burst_invariant(t0, front, maxm, rate);
        let t = times.last();
        assert(t == t0);
        assert(spec_refill(prev.milli, t0, t0, maxm, rate) == prev.milli) by {
            assert((0int * rate) == 0) by (nonlinear_arith);
        }
        vstd::arithmetic::div_mod::lemma_fundamental_div_mod(maxm, 1000);
        vstd::arithmetic::div_mod::lemma_mod_bound(maxm, 1000);
    }
}

/// In a same-moment burst the bucket drains by exactly one token per
/// admission.
proof fn lemma_burst_invariant(t0: int, times: Seq<int>, maxm: int, rate: int)
    requires
        maxm >= 0,
        rate >= 0,
        forall|i: int| 0 <= i < times.len() ==> #[trigger] times[i] == t0,
    ensures
        ({
            let run = spec_run(maxm, t0, times, maxm, rate);
            &&& run.last == t0
            &&& run.milli == maxm - 1000 * run.admitted
            &&& 0 <= run.milli
        }),
    decreases times.len(),
{
    if times.len() > 0 {
        let front = times.drop_last();
        lemma_burst_invariant(t0, front, maxm, rate);
        let prev = spec_run(maxm, t0, front, maxm, rate);
        assert(spec_refill(prev.milli, t0, times.last(), maxm, rate) == prev.milli) by {
            assert((0int * rate) == 0) by (nonlinear_arith);
        }
    }
}

/// The identity a request is limited under: the first entry of the
/// forwarded-for header when one came, trimmed, else the peer address,
/// else a fixed fallback.
pub open spec fn spec_client_key(
    forwarded_for: Option<Seq<char>>,
    peer: Option<Seq<char>>,
) -> Seq<char> {
    match forwarded_for {
        Option::Some(h) => crate::strutil::spec_trim(crate::strutil::spec_split(h, ',')[0]),
        Option::None => match peer {
            Option::Some(p) => p,
            Option::None => "unknown"@,
        },
    }
}

/// Pick the rate-limit key for a request.
pub fn client_key(forwarded_for: Option<&str>, peer: Option<String>) -> (r: String)
    ensures
        r@ == spec_client_key(
            match forwarded_for {
                Option::Some(h) => Option::Some(h@),
                Option::None => Option::None,
            },
            match peer {
                Option::Some(p) => Option::Some(p@),
                Option::None => Option::None,
            },
        ),
{
    match forwarded_for {
        Some(h) => {
            let parts = crate::strutil::split_char(h, ',');
            proof {
                crate::strutil::lemma_split_len(h@, ',');
                assert(parts@.map_values(|t: String| t@)[0] == parts@[0]@);
            }
            crate::strutil::trim(parts[0].as_str())
        },
        None => match peer {
            Some(p) => p,
            None => String::from_str("unknown"),
        },
    }
}

/// Relies on `std::time::SystemTime::now`: the wall clock, read as whole
/// milliseconds since the Unix epoch.  Nothing is promised of its reading;
/// a check handles a clock that moved backwards by adding no refill.
#[verifier::external_body]
pub fn wall_clock_ms() -> u64 {
    match std::time::SystemTime::now().duration_since(std::time::UNIX_EPOCH) {
        Ok(d) => {
            let ms = d.as_millis();
            if ms > u64::MAX as u128 {
                u64::MAX
            } else {
                ms as u64
            }
        },
        Err(_) => 0,
    }
}

/// The 128-bit refill arithmetic stays in range: the product of two 64-bit
/// values fits, and the capped sum does too.
proof fn lemma_milli_math(elapsed: int, rate: int, milli: int)
    requires
        0 <= elapsed < 0x10000000000000000,
        0 <= rate < 0x10000000000000000,
        0 <= milli < 0x10000000000000000,
    ensures
        0 <= elapsed * rate <= 0xffffffffffffffff * 0xffffffffffffffff,
        milli + (elapsed * rate) / 1000 <= 0xffffffffffffffffffffffffffffffff,
{
    assert(elapsed * rate <= 0xffffffffffffffff * 0xffffffffffffffff) by (nonlinear_arith)
        requires
            0 <= elapsed <= 0xffffffffffffffff,
            0 <= rate <= 0xffffffffffffffff,
    ;
    assert(0 <= elapsed * rate) by (nonlinear_arith)
        requires
            0 <= elapsed,
            0 <= rate,
    ;
    vstd::arithmetic::div_mod::lemma_div_is_ordered(
        elapsed * rate,
        (0xffffffffffffffff as int) * (0xffffffffffffffff as int),
        1000,
    );
}

/// A key whose lookup fails occurs nowhere in the list.
proof fn lemma_find_none_not_present(s: Seq<(String, Bucket)>, key: Seq<char>)
    requires
        spec_find_bucket(s, key) is None,
    ensures
        forall|i: int| 0 <= i < s.len() ==> (#[trigger] s[i]).0@ != key,
    decreases s.len(),
{
    if s.len() > 0 {
        lemma_find_none_not_present(s.drop_first(), key);
        assert forall|i: int| 0 <= i < s.len() implies (#[trigger] s[i]).0@ != key by {
            if i > 0 {
                assert(s[i] == s.drop_first()[i - 1]);
            }
        }
    }
}

proof fn lemma_find_unique(s: Seq<(String, Bucket)>, i: int)
    requires
        0 <= i < s.len(),
        forall|j1: int, j2: int|
            0 <= j1 < j2 < s.len() ==> (#[trigger] s[j1]).0@ != (#[trigger] s[j2]).0@,
    ensures
        spec_find_bucket(s, s[i].0@) == Option::Some(s[i].1),
    decreases s.len(),
{
    if i > 0 {
        assert(s[0].0@ != s[i].0@);
        let t = s.drop_first();
        assert(forall|j1: int, j2: int|
            0 <= j1 < j2 < t.len() ==> (#[trigger] t[j1]).0@ != (#[trigger] t[j2]).0@) by {
            assert(forall|j1: int, j2: int|
                0 <= j1 < j2 < t.len() ==> t[j1] == s[j1 + 1] && t[j2] == s[j2 + 1]);
        }
        lemma_find_unique(t, i - 1);
    }
}

proof fn lemma_find_bucket_update(
    before: Seq<(String, Bucket)>,
    after: Seq<(String, Bucket)>,
    i: int,
    key: Seq<char>,
)
    requires
        0 <= i < before.len(),
        after.len() == before.len(),
        after[i].0@ == before[i].0@,
        before[i].0@ == key,
        forall|j: int| 0 <= j < before.len() && j != i ==> after[j] == before[j],
        forall|j1: int, j2: int|
            0 <= j1 < j2 < before.len() ==> (#[trigger] before[j1]).0@ != (
            #[trigger] before[j2]).0@,
    ensures
        spec_find_bucket(after, key) == Option::Some(after[i].1),
        forall|k2: Seq<char>|
            k2 != key ==> #[trigger] spec_find_bucket(after, k2) == spec_find_bucket(before, k2),
    decreases before.len(),
{
    if i == 0 {
        assert forall|k2: Seq<char>| k2 != key implies #[trigger] spec_find_bucket(after, k2)
            == spec_find_bucket(before, k2) by {
            assert(after.drop_first() =~= before.drop_first());
        }
    } else {
        let tb = before.drop_first();
        let ta = after.drop_first();
        assert(forall|j: int| 0 <= j < tb.len() && j != i - 1 ==> ta[j] == tb[j]);
        assert(forall|j1: int, j2: int|
            0 <= j1 < j2 < tb.len() ==> (#[trigger] tb[j1]).0@ != (#[trigger] tb[j2]).0@) by {
            assert(forall|j1: int, j2: int|
                0 <= j1 < j2 < tb.len() ==> tb[j1] == before[j1 + 1] && tb[j2] == before[j2 + 1]);
        }
        assert(ta[i - 1].0@ == tb[i - 1].0@ && tb[i - 1].0@ == key);
        lemma_find_bucket_update(tb, ta, i - 1, key);
        assert(before[0].0@ != key);
        assert(after[0] == before[0]);
        assert(spec_find_bucket(after, key) == spec_find_bucket(ta, key));
        assert(after[i].1 == ta[i - 1].1);
        assert forall|k2: Seq<char>| k2 != key implies #[trigger] spec_find_bucket(after, k2)
            == spec_find_bucket(before, k2) by {
            if after[0].0@ != k2 {
                assert(spec_find_bucket(after, k2) == spec_find_bucket(ta, k2));
                assert(spec_find_bucket(before, k2) == spec_find_bucket(tb, k2));
            }
        }
    }
}

proof fn lemma_find_bucket_snoc(
    before: Seq<(String, Bucket)>,
    s2: Seq<(String, Bucket)>,
    key: Seq<char>,
    b: Bucket,
)
    requires
        spec_find_bucket(before, key) is None,
        s2.len() == before.len() + 1,
        s2.drop_last() == before,
        s2[before.len() as int].0@ == key,
        s2[before.len() as int].1 == b,
    ensures
        spec_find_bucket(s2, key) == Option::Some(b),
        forall|k2: Seq<char>|
            k2 != key ==> #[trigger] spec_find_bucket(s2, k2) == spec_find_bucket(before, k2),
    decreases before.len(),
{
    if before.len() == 0 {
        assert(s2.len() == 1);
        assert(s2[0].0@ == key);
        assert forall|k2: Seq<char>| k2 != key implies #[trigger] spec_find_bucket(s2, k2)
            == spec_find_bucket(before, k2) by {
            assert(spec_find_bucket(s2, k2) == spec_find_bucket(s2.drop_first(), k2));
        }
    } else {
        assert(s2[0] == before[0]);
        let tb = before.drop_first();
        let t2 = s2.drop_first();
        assert(t2.drop_last() =~= tb);
        assert(t2[tb.len() as int] == s2[before.len() as int]);
        assert(before[0].0@ != key);
        lemma_find_bucket_snoc(tb, t2, key, b);
        assert forall|k2: Seq<char>| k2 != key implies #[trigger] spec_find_bucket(s2, k2)
            == spec_find_bucket(before, k2) by {
            if s2[0].0@ != k2 {
                assert(spec_find_bucket(s2, k2) == spec_find_bucket(t2, k2));
                assert(spec_find_bucket(before, k2) == spec_find_bucket(tb, k2));
            }
        }
    }
}

/// A successful lookup names an entry that holds the key.
proof fn lemma_find_some_index(s: Seq<(String, Bucket)>, k: Seq<char>)
    requires
        spec_find_bucket(s, k) is Some,
    ensures
        exists|j: int| 0 <= j < s.len() && (#[trigger] s[j]).0@ == k,
    decreases s.len(),
{
    if s.len() > 0 {
        if s[0].0@ == k {
            assert(s[0].0@ == k);
        } else {
            lemma_find_some_index(s.drop_first(), k);
            let j = choose|j: int|
                0 <= j < s.drop_first().len() && (#[trigger] s.drop_first()[j]).0@ == k;
            assert(s[j + 1].0@ == k);
        }
    }
}

/// Appending an element does not change a lookup that already succeeds.
proof fn lemma_find_bucket_extend(
    before: Seq<(String, Bucket)>,
    after: Seq<(String, Bucket)>,
    k: Seq<char>,
)
    requires
        after.len() == before.len() + 1,
        after.drop_last() == before,
        spec_find_bucket(before, k) is Some,
    ensures
        spec_find_bucket(after, k) == spec_find_bucket(before, k),
    decreases before.len(),
{
    if before.len() > 0 {
        if before[0].0@ != k {
            assert(after[0] == before[0]);
            assert(after.drop_first().drop_last() =~= before.drop_first());
            lemma_find_bucket_extend(before.drop_first(), after.drop_first(), k);
        } else {
            assert(after[0] == before[0]);
        }
    }
}

/// A lookup in a list with one appended element: the old result when it was
/// found, else the new element when its key matches.
proof fn lemma_find_bucket_snoc_any(
    before: Seq<(String, Bucket)>,
    after: Seq<(String, Bucket)>,
    k: Seq<char>,
)
    requires
        after.len() == before.len() + 1,
        after.drop_last() == before,
        spec_find_bucket(before, k) is None,
    ensures
        after[before.len() as int].0@ == k ==> spec_find_bucket(after, k) == Option::Some(
            after[before.len() as int].1,
        ),
        after[before.len() as int].0@ != k ==> spec_find_bucket(after, k) is None,
    decreases before.len(),
{
    if before.len() == 0 {
        if after[0].0@ != k {
            assert(spec_find_bucket(after, k) == spec_find_bucket(after.drop_first(), k));
        }
    } else {
        assert(after[0] == before[0]);
        assert(before[0].0@ != k);
        assert(after.drop_first().drop_last() =~= before.drop_first());
        assert(after.drop_first()[before.len() - 1] == after[before.len() as int]);
        lemma_find_bucket_snoc_any(before.drop_first(), after.drop_first(), k);
    }
}

} // verus!
