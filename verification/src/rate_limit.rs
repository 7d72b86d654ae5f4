//! A sliding-window rate limiter: a request is admitted while fewer than the
//! configured number of requests were admitted within the last minute.

use vstd::prelude::*;

use std::time::Instant;

use crate::clock::{duration_nanos, elapsed_since, instant_now};

verus! {

/// The length of the sliding window: one minute, in nanoseconds.
pub const WINDOW_NANOS: u128 = 60_000_000_000;

/// The admission times in `times` that fall within the window ending at
/// `now`: strictly later than `now - window`.
pub open spec fn within_window(times: Seq<u128>, now: u128, window: u128) -> Seq<u128> {
    times.filter(|t: u128| t + window > now)
}

/// Simple sliding-window rate limiter.
///
/// Tracks the admission times of requests (nanoseconds since the limiter was
/// made) and refuses a new request once `max_requests` were admitted within
/// the last minute.
pub struct RateLimiter {
    max_requests: u32,
    window: u128,
    origin: Instant,
    requests: Vec<u128>,
}

impl RateLimiter {
    #[verifier::type_invariant]
    spec fn within_limit(self) -> bool {
        &&& self.requests@.len() <= self.max_requests
        &&& self.window == WINDOW_NANOS
    }

    /// The most requests admitted within one window.
    pub closed spec fn limit(self) -> nat {
        self.max_requests as nat
    }

    /// The admission times still remembered, oldest first.
    pub closed spec fn admitted(self) -> Seq<u128> {
        self.requests@
    }

    /// A limiter that admits up to `max_per_minute` requests per minute.
    pub fn new(max_per_minute: u32) -> (l: Self)
        ensures
            l.limit() == max_per_minute,
            l.admitted() == Seq::<u128>::empty(),
            l.admitted().len() <= l.limit(),
    {
        RateLimiter {
            max_requests: max_per_minute,
            window: WINDOW_NANOS,
            origin: instant_now(),
            requests: Vec::new(),
        }
    }

    /// The decision for a request at `now` (nanoseconds since the limiter was
    /// made): admission times outside the window are forgotten; the request
    /// is admitted, and its time remembered, when fewer than the limit remain.
    pub fn check_at(&mut self, now: u128) -> (allowed: bool)
        ensures
            ({
                let kept = within_window(old(self).admitted(), now, WINDOW_NANOS);
                &&& allowed == (kept.len() < old(self).limit())
                &&& final(self).admitted() == if allowed {
                    kept.push(now)
                } else {
                    kept
                }
                &&& final(self).limit() == old(self).limit()
                &&& final(self).admitted().len() <= final(self).limit()
            }),
            (allowed, final(self).admitted()) == step(old(self).admitted(), old(self).limit(), now),
    {
        proof {
            use_type_invariant(&*self);
        }
        let ghost pred = |t: u128| t + WINDOW_NANOS > now;
        let ghost old_times = self.requests@;
        let mut kept: Vec<u128> = Vec::new();
        let mut i: usize = 0;
        assert(old_times.take(0) == Seq::<u128>::empty());
        assert(old_times.take(0).filter(pred) == Seq::<u128>::empty()) by {
            reveal(Seq::filter);
        }
        while i < self.requests.len()
            invariant
                0 <= i <= old_times.len(),
                self.requests@ == old_times,
                self.window == WINDOW_NANOS,
                kept@ == old_times.take(i as int).filter(pred),
                kept@.len() <= i,
                pred == (|t: u128| t + WINDOW_NANOS > now),
            decreases old_times.len() - i,
        {
            let t = self.requests[i];
            proof {
                let p = old_times.take(i + 1);
                assert(p.drop_last() == old_times.take(i as int));
                assert(p.last() == t);
                reveal(Seq::filter);
                assert(p.filter(pred) == (if pred(t) {
                    p.drop_last().filter(pred).push(t)
                } else {
                    p.drop_last().filter(pred)
                }));
            }
            if t > now || now - t < self.window {
                kept.push(t);
            }
            i = i + 1;
        }
        assert(old_times.take(old_times.len() as int) == old_times);
        let allowed = kept.len() < self.max_requests as usize;
        if allowed {
            kept.push(now);
        }
        self.requests = kept;
        allowed
    }

    /// Returns `true` if the request is allowed, `false` if rate-limited; the
    /// request is timed by the monotonic clock.
    pub fn check(&mut self) -> (allowed: bool)
        ensures
            exists|now: u128|
                {
                    let kept = #[trigger] within_window(old(self).admitted(), now, WINDOW_NANOS);
                    &&& allowed == (kept.len() < old(self).limit())
                    &&& final(self).admitted() == if allowed {
                        kept.push(now)
                    } else {
                        kept
                    }
                },
            final(self).limit() == old(self).limit(),
            final(self).admitted().len() <= final(self).limit(),
    {
        let elapsed = elapsed_since(&self.origin);
        let now = duration_nanos(&elapsed);
        let allowed = self.check_at(now);
        allowed
    }
}

/// One request at `now` to a limiter that remembers `admitted` and allows
/// `limit` per window: whether it is admitted, and what is remembered after.
pub open spec fn step(admitted: Seq<u128>, limit: nat, now: u128) -> (bool, Seq<u128>) {
    let kept = within_window(admitted, now, WINDOW_NANOS);
    if kept.len() < limit {
        (true, kept.push(now))
    } else {
        (false, kept)
    }
}

/// A fresh limiter with `limit` fed the requests at `times`, in order: the
/// decision for each request, and what is remembered at the end.
pub open spec fn replay(limit: nat, times: Seq<u128>) -> (Seq<bool>, Seq<u128>)
    decreases times.len(),
{
    if times.len() == 0 {
        (Seq::empty(), Seq::empty())
    } else {
        let (decisions, remembered) = replay(limit, times.drop_last());
        let (d, next) = step(remembered, limit, times.last());
        (decisions.push(d), next)
    }
}

/// The times of the admitted requests, in order.
pub open spec fn admitted_times(times: Seq<u128>, decisions: Seq<bool>) -> Seq<u128>
    decreases times.len(),
{
    if times.len() == 0 || decisions.len() == 0 {
        Seq::empty()
    } else if decisions.last() {
        admitted_times(times.drop_last(), decisions.drop_last()).push(times.last())
    } else {
        admitted_times(times.drop_last(), decisions.drop_last())
    }
}

/// Keeping what lies in a later window of what lies in an earlier one is
/// keeping what lies in the later window.
proof fn lemma_window_of_window(s: Seq<u128>, earlier: u128, later: u128)
    requires
        earlier <= later,
    ensures
        within_window(within_window(s, earlier, WINDOW_NANOS), later, WINDOW_NANOS)
            == within_window(s, later, WINDOW_NANOS),
    decreases s.len(),
{
    reveal(Seq::filter);
    let p = |t: u128| t + WINDOW_NANOS > earlier;
    let q = |t: u128| t + WINDOW_NANOS > later;
    if s.len() > 0 {
        lemma_window_of_window(s.drop_last(), earlier, later);
        assert(s.filter(p) == (if p(s.last()) {
            s.drop_last().filter(p).push(s.last())
        } else {
            s.drop_last().filter(p)
        }));
        if p(s.last()) {
            let f = s.drop_last().filter(p).push(s.last());
            assert(f.drop_last() == s.drop_last().filter(p));
            assert(f.last() == s.last());
        }
    }
}

/// After the requests at `times` (in time order), what the limiter
/// remembers is exactly the admitted times within the window ending at the
/// last request; and it is no more than the limit.
pub proof fn lemma_replay_remembers_window(limit: nat, times: Seq<u128>)
    requires
        forall|i: int, j: int| 0 <= i < j < times.len() ==> times[i] <= times[j],
    ensures
        replay(limit, times).0.len() == times.len(),
        times.len() > 0 ==> replay(limit, times).1 == within_window(
            admitted_times(times, replay(limit, times).0),
            times.last(),
            WINDOW_NANOS,
        ),
        times.len() == 0 ==> replay(limit, times).1.len() == 0,
        replay(limit, times).1.len() <= limit,
    decreases times.len(),
{
    if times.len() > 0 {
        let prefix = times.drop_last();
        let t = times.last();
        lemma_replay_remembers_window(limit, prefix);
        let (ds, st) = replay(limit, prefix);
        let a = admitted_times(prefix, ds);
        let kept = within_window(st, t, WINDOW_NANOS);
        reveal(Seq::filter);
        if prefix.len() > 0 {
            assert(times[prefix.len() - 1] <= times[times.len() - 1]);
            lemma_window_of_window(a, prefix.last(), t);
        } else {
            assert(st.len() == 0);
            assert(st == Seq::<u128>::empty());
            assert(a == Seq::<u128>::empty());
            assert(kept == Seq::<u128>::empty());
        }
        assert(kept == within_window(a, t, WINDOW_NANOS));
        assert(kept.len() <= st.len()) by {
            st.lemma_filter_len(|u: u128| u + WINDOW_NANOS > t);
        }
        let (d, next) = step(st, limit, t);
        let dsx = ds.push(d);
        assert(dsx.drop_last() == ds);
        assert(times.drop_last() == prefix);
        if d {
            let ax = a.push(t);
            assert(admitted_times(times, dsx) == ax);
            let q = |u: u128| u + WINDOW_NANOS > t;
            assert(ax.filter(q) == (if q(ax.last()) {
                ax.drop_last().filter(q).push(ax.last())
            } else {
                ax.drop_last().filter(q)
            }));
            assert(ax.drop_last() == a);
        } else {
            assert(admitted_times(times, dsx) == a);
        }
    }
}

/// The limiter never admits more than its limit within one window: for
/// requests in time order, at each request the admitted requests of the
/// last minute, that one included, are at most the limit.
pub proof fn lemma_never_over_limit_in_window(limit: nat, times: Seq<u128>, k: int)
    requires
        forall|i: int, j: int| 0 <= i < j < times.len() ==> times[i] <= times[j],
        0 <= k < times.len(),
    ensures
        ({
            let prefix = times.take(k + 1);
            within_window(
                admitted_times(prefix, replay(limit, prefix).0),
                times[k],
                WINDOW_NANOS,
            ).len() <= limit
        }),
{
    let prefix = times.take(k + 1);
    assert forall|i: int, j: int| 0 <= i < j < prefix.len() implies prefix[i] <= prefix[j] by {
        assert(prefix[i] == times[i] && prefix[j] == times[j]);
    }
    lemma_replay_remembers_window(limit, prefix);
    assert(prefix.last() == times[k]);
}

/// Replaying the first `k` requests gives the first `k` decisions of
/// replaying them all.
proof fn lemma_replay_prefix(limit: nat, times: Seq<u128>, k: int)
    requires
        0 <= k <= times.len(),
    ensures
        replay(limit, times).0.len() == times.len(),
        replay(limit, times.take(k)).0 == replay(limit, times).0.take(k),
    decreases times.len(),
{
    if times.len() > 0 {
        let prefix = times.drop_last();
        if k < times.len() {
            lemma_replay_prefix(limit, prefix, k);
            assert(times.take(k) == prefix.take(k));
        } else {
            lemma_replay_prefix(limit, prefix, k - 1);
            assert(times.take(k) == times);
        }
        let ds = replay(limit, prefix).0;
        let all = replay(limit, times).0;
        assert(all == ds.push(step(replay(limit, prefix).1, limit, times.last()).0));
        if k < times.len() {
            assert(all.take(k) == ds.take(k));
        } else {
            assert(all.take(k) == all);
        }
    } else {
        assert(times.take(k) == times);
    }
}

/// For requests in time order, the request at position `k` is admitted
/// exactly when fewer than the limit of the earlier requests were admitted
/// within the minute before it (strictly later than its time less one
/// window); an admitted request counts towards the later ones, a refused one
/// does not.
pub proof fn lemma_admitted_iff_under_limit(limit: nat, times: Seq<u128>, k: int)
    requires
        forall|i: int, j: int| 0 <= i < j < times.len() ==> times[i] <= times[j],
        0 <= k < times.len(),
    ensures
        replay(limit, times).0.len() == times.len(),
        replay(limit, times).0[k] == (within_window(
            admitted_times(times.take(k), replay(limit, times).0.take(k)),
            times[k],
            WINDOW_NANOS,
        ).len() < limit),
{
    lemma_replay_prefix(limit, times, k);
    lemma_replay_prefix(limit, times, k + 1);
    let before = times.take(k);
    let upto = times.take(k + 1);
    assert(upto.drop_last() == before);
    assert(upto.last() == times[k]);
    assert forall|i: int, j: int| 0 <= i < j < before.len() implies before[i] <= before[j] by {
        assert(before[i] == times[i] && before[j] == times[j]);
    }
    lemma_replay_remembers_window(limit, before);
    let ds = replay(limit, before).0;
    let st = replay(limit, before).1;
    let a = admitted_times(before, ds);
    if k > 0 {
        assert(before.last() == times[k - 1]);
        assert(times[k - 1] <= times[k]);
        lemma_window_of_window(a, before.last(), times[k]);
    } else {
        reveal(Seq::filter);
        assert(st == Seq::<u128>::empty());
        assert(before.len() == 0);
        assert(a == Seq::<u128>::empty());
        assert(within_window(st, times[k], WINDOW_NANOS) == Seq::<u128>::empty());
        assert(within_window(a, times[k], WINDOW_NANOS) == Seq::<u128>::empty());
    }
    let d = step(st, limit, times[k]).0;
    assert(replay(limit, upto).0 == ds.push(d));
    assert(replay(limit, times).0[k] == replay(limit, times).0.take(k + 1)[k]);
}

} // verus!
