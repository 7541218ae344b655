//! Sliding-window rate limiting keyed by an opaque identifier.
//!
//! Each key has an ordered history of request instants. Every admission
//! check first prunes the key's history to the exact trailing window as of
//! the current instant — instants older than the cutoff and instants after
//! the current instant alike — then allows and records the request only if
//! fewer than the limit remain. Keys are never removed; only their
//! histories shrink. Instants are measured in milliseconds.

use vstd::prelude::*;
use vstd::seq_lib::*;

use std::collections::HashMap;

use crate::error::RateLimitError;

verus! {

broadcast use vstd::std_specs::hash::group_hash_axioms;

/// Length of the sliding window, in milliseconds: one minute.
pub const WINDOW_MILLIS: u64 = 60_000;

/// Relies on `std::time::SystemTime::now`: the current wall-clock time,
/// converted to whole milliseconds since the epoch. Nothing is assumed
/// about the value; a clock before the epoch reads as zero.
#[verifier::external_body]
fn current_millis() -> (t: u64)
{
    match std::time::SystemTime::now().duration_since(std::time::UNIX_EPOCH) {
        Ok(d) => d.as_millis() as u64,
        Err(_) => 0,
    }
}

/// The oldest instant still inside the window that ends at `now`; instants
/// strictly older are pruned. Saturates at zero while the clock has not
/// yet run for one full window.
pub open spec fn spec_cutoff(now: u64) -> u64 {
    if now >= WINDOW_MILLIS {
        (now - WINDOW_MILLIS) as u64
    } else {
        0
    }
}

/// The instants of `w` inside the trailing window that ends at `now`, in
/// order: at or after the cutoff, and not after `now` itself. An instant
/// after `now` can only have been recorded by a clock that later ran
/// backwards; it is outside the window and is dropped as well.
pub open spec fn recent(w: Seq<u64>, now: u64) -> Seq<u64> {
    w.filter(|t: u64| spec_cutoff(now) <= t <= now)
}

/// Whether the instants of `w` never decrease.
pub open spec fn nondecreasing(w: Seq<u64>) -> bool {
    forall|i: int, j: int| 0 <= i <= j < w.len() ==> w[i] <= w[j]
}

/// Whether every instant of `w` is at most `t`.
pub open spec fn bounded_by(w: Seq<u64>, t: u64) -> bool {
    forall|i: int| 0 <= i < w.len() ==> w[i] <= t
}

/// Every instant that pruning keeps lies inside the trailing window, with
/// no assumption on the history it came from.
proof fn lemma_recent_in_window(w: Seq<u64>, now: u64)
    ensures
        forall|j: int|
            0 <= j < recent(w, now).len() ==> spec_cutoff(now) <= #[trigger] recent(w, now)[j]
                <= now,
{
    broadcast use Seq::<_>::lemma_filter_pred;

    assert forall|j: int| 0 <= j < recent(w, now).len() implies spec_cutoff(now) <= #[trigger] recent(
        w,
        now,
    )[j] <= now by {
        let pred = (|t: u64| spec_cutoff(now) <= t <= now);
        assert(pred(recent(w, now)[j]));
    }
}

/// Filtering an ordered history to the trailing window keeps it ordered.
proof fn lemma_recent_ordered(w: Seq<u64>, now: u64)
    requires
        nondecreasing(w),
    ensures
        nondecreasing(recent(w, now)),
    decreases w.len(),
{
    broadcast use Seq::<_>::lemma_filter_pred, Seq::<_>::lemma_filter_contains_rev;

    let pred = (|t: u64| spec_cutoff(now) <= t <= now);
    if w.len() == 0 {
        reveal_with_fuel(Seq::filter, 1);
    } else {
        let w0 = w.drop_last();
        let x = w.last();
        assert(nondecreasing(w0)) by {
            assert forall|i: int, j: int| 0 <= i <= j < w0.len() implies w0[i] <= w0[j] by {
                assert(w[i] <= w[j]);
            }
        }
        lemma_recent_ordered(w0, now);
        assert(w =~= w0.push(x));
        w0.lemma_filter_push(x, pred);
        assert forall|j: int| 0 <= j < recent(w0, now).len() implies recent(w0, now)[j] <= x by {
            assert(recent(w0, now).contains(recent(w0, now)[j]));
            assert(w0.contains(recent(w0, now)[j]));
            let i = choose|i: int| 0 <= i < w0.len() && w0[i] == recent(w0, now)[j];
            assert(w[i] <= w[w.len() - 1]);
        }
        if pred(x) {
            assert forall|a: int, b: int|
                0 <= a <= b < recent(w, now).len() implies recent(w, now)[a] <= recent(
                w,
                now,
            )[b] by {
                if b < recent(w0, now).len() {
                    assert(recent(w0, now)[a] <= recent(w0, now)[b]);
                } else {
                    assert(recent(w, now)[b] == x);
                }
            }
        }
    }
}

/// Rate limiter tracking request instants per key.
#[derive(Debug)]
pub struct RateLimiter {
    /// Map of key to the instants, in milliseconds, of its recent requests.
    requests: HashMap<i64, Vec<u64>>,
}

impl Default for RateLimiter {
    /// An empty limiter: no key has any recorded request.
    fn default() -> (r: Self)
        ensures
            forall|k: i64| #[trigger] r.window(k) == Seq::<u64>::empty(),
    {
        RateLimiter { requests: HashMap::new() }
    }
}

impl RateLimiter {
    /// The recorded request instants of `key`, oldest first.
    pub closed spec fn window(self, key: i64) -> Seq<u64> {
        if self.requests@.contains_key(key) {
            self.requests@[key]@
        } else {
            Seq::<u64>::empty()
        }
    }

    /// One admission decision at instant `now`: the key's history is pruned
    /// to the trailing window, the pruned count alone decides, a decision
    /// in favour records `now`, and no other key's history changes.
    pub open spec fn limiter_step(
        pre: RateLimiter,
        post: RateLimiter,
        key: i64,
        limit: usize,
        now: u64,
        allowed: bool,
    ) -> bool {
        let kept = recent(pre.window(key), now);
        &&& allowed == (kept.len() < limit)
        &&& post.window(key) == if allowed {
            kept.push(now)
        } else {
            kept
        }
        &&& forall|k: i64| k != key ==> post.window(k) == pre.window(k)
    }

    /// Check whether a request from `key` at instant `now_millis` is
    /// allowed.
    ///
    /// The key's history is first pruned to the trailing window as of
    /// `now_millis` — also when the request is then refused. The request is
    /// allowed, and `now_millis` recorded, exactly when fewer than `limit`
    /// instants remain after pruning. Other keys are unaffected.
    ///
    /// The new history lies entirely inside the trailing window, and an
    /// ordered history stays ordered; since every key starts empty, the
    /// histories this interface builds are always ordered, with no
    /// assumption on how the instants of successive calls relate.
    pub fn check_rate_limit_at(&mut self, key: i64, limit: usize, now_millis: u64) -> (r: Result<
        (),
        RateLimitError,
    >)
        ensures
            RateLimiter::limiter_step(*old(self), *final(self), key, limit, now_millis, r is Ok),
            r is Ok <==> recent(old(self).window(key), now_millis).len() < limit,
            r is Ok ==> final(self).window(key).len() <= limit,
            forall|j: int|
                0 <= j < final(self).window(key).len() ==> spec_cutoff(now_millis)
                    <= #[trigger] final(self).window(key)[j] <= now_millis,
            nondecreasing(old(self).window(key)) ==> nondecreasing(final(self).window(key)),
    {
        broadcast use Seq::<_>::push_distributes_over_add;

        proof {
            reveal_with_fuel(Seq::filter, 1);
        }
        let cutoff: u64 = if now_millis >= WINDOW_MILLIS {
            now_millis - WINDOW_MILLIS
        } else {
            0
        };
        let ghost w0 = self.window(key);
        let mut kept: Vec<u64> = Vec::new();
        match self.requests.get(&key) {
            Some(history) => {
                let n = history.len();
                let mut i: usize = 0;
                while i < n
                    invariant
                        n == history@.len(),
                        0 <= i <= n,
                        history@ == w0,
                        cutoff == spec_cutoff(now_millis),
                        kept@ == recent(w0.take(i as int), now_millis),
                    decreases n - i,
                {
                    let t = history[i];
                    proof {
                        let pred = (|t: u64| spec_cutoff(now_millis) <= t <= now_millis);
                        assert(w0.take(i as int + 1) =~= w0.take(i as int).push(t));
                        w0.take(i as int).lemma_filter_push(t, pred);
                    }
                    if t >= cutoff && t <= now_millis {
                        kept.push(t);
                    }
                    i += 1;
                }
                proof {
                    assert(w0.take(n as int) =~= w0);
                }
            },
            None => {},
        }
        proof {
            lemma_recent_in_window(w0, now_millis);
            if nondecreasing(w0) {
                lemma_recent_ordered(w0, now_millis);
            }
        }
        if kept.len() >= limit {
            // Refused: keep the pruned history, record nothing.
            self.requests.insert(key, kept);
            return Err(RateLimitError::RateLimited);
        }
        let ghost kept0 = kept@;
        kept.push(now_millis);
        self.requests.insert(key, kept);
        proof {
            if nondecreasing(w0) {
                assert forall|a: int, b: int|
                    0 <= a <= b < kept0.push(now_millis).len() implies kept0.push(now_millis)[a]
                    <= kept0.push(now_millis)[b] by {
                    if b < kept0.len() {
                        assert(kept0[a] <= kept0[b]);
                    } else if a < kept0.len() {
                        assert(kept0[a] <= now_millis);
                    }
                }
            }
        }
        Ok(())
    }

    /// Check whether a request from `chat_id` is allowed right now: the
    /// sliding-window rule, applied at the instant the clock reads at the
    /// moment of the call.
    pub fn check_rate_limit(&mut self, chat_id: i64, limit: usize) -> (r: Result<
        (),
        RateLimitError,
    >)
        ensures
            exists|now: u64|
                #[trigger] RateLimiter::limiter_step(
                    *old(self),
                    *final(self),
                    chat_id,
                    limit,
                    now,
                    r is Ok,
                ),
    {
        let now = current_millis();
        let r = self.check_rate_limit_at(chat_id, limit, now);
        proof {
            assert(RateLimiter::limiter_step(*old(self), *self, chat_id, limit, now, r is Ok));
        }
        r
    }
}

/// The window a key holds after one decision per instant of `instants`,
/// all with the same `limit`, starting from an empty history — the history
/// a fresh limiter has for every key.
pub open spec fn window_after(instants: Seq<u64>, limit: usize) -> Seq<u64>
    decreases instants.len(),
{
    if instants.len() == 0 {
        Seq::<u64>::empty()
    } else {
        let kept = recent(window_after(instants.drop_last(), limit), instants.last());
        if kept.len() < limit {
            kept.push(instants.last())
        } else {
            kept
        }
    }
}

/// Whether the call at position `i` of `instants` is allowed.
pub open spec fn allowed_at(instants: Seq<u64>, limit: usize, i: int) -> bool {
    recent(window_after(instants.take(i), limit), instants[i]).len() < limit
}

/// How many of the calls are allowed with an instant inside the trailing
/// window ending at `t_end`.
pub open spec fn allowed_in_window(instants: Seq<u64>, limit: usize, t_end: u64) -> int
    decreases instants.len(),
{
    if instants.len() == 0 {
        0
    } else {
        allowed_in_window(instants.drop_last(), limit, t_end) + if allowed_at(
            instants,
            limit,
            instants.len() - 1,
        ) && spec_cutoff(t_end) <= instants.last() <= t_end {
            1int
        } else {
            0int
        }
    }
}

/// A decision step extends the model: the transition taken at `now`
/// carries the window of the call history `ins` to that of
/// `ins.push(now)`, and its outcome is the model's.
pub proof fn lemma_step_extends_model(
    pre: RateLimiter,
    post: RateLimiter,
    key: i64,
    limit: usize,
    now: u64,
    allowed: bool,
    ins: Seq<u64>,
)
    requires
        RateLimiter::limiter_step(pre, post, key, limit, now, allowed),
        pre.window(key) == window_after(ins, limit),
    ensures
        post.window(key) == window_after(ins.push(now), limit),
        allowed == allowed_at(ins.push(now), limit, ins.len() as int),
{
    assert(ins.push(now).drop_last() =~= ins);
    assert(ins.push(now).take(ins.len() as int) =~= ins);
}

/// On a history with no instant after `t1`, pruning at `t1` removes
/// nothing that pruning at a later instant `t2` would not remove as well.
proof fn lemma_recent_absorb(w: Seq<u64>, t1: u64, t2: u64)
    requires
        t1 <= t2,
        bounded_by(w, t1),
    ensures
        recent(recent(w, t1), t2) == recent(w, t2),
    decreases w.len(),
{
    let p1 = (|t: u64| spec_cutoff(t1) <= t <= t1);
    let p2 = (|t: u64| spec_cutoff(t2) <= t <= t2);
    if w.len() == 0 {
        reveal_with_fuel(Seq::filter, 1);
    } else {
        let w0 = w.drop_last();
        let x = w.last();
        assert(bounded_by(w0, t1)) by {
            assert forall|i: int| 0 <= i < w0.len() implies w0[i] <= t1 by {
                assert(w[i] <= t1);
            }
        }
        lemma_recent_absorb(w0, t1, t2);
        assert(w =~= w0.push(x));
        assert(x <= t1);
        w0.lemma_filter_push(x, p1);
        w0.lemma_filter_push(x, p2);
        recent(w0, t1).lemma_filter_push(x, p2);
        if !p1(x) {
            assert(!p2(x));
        }
    }
}

/// The stored window never holds an instant after the last call.
proof fn lemma_window_bounded(instants: Seq<u64>, limit: usize, t: u64)
    requires
        instants.len() >= 1 ==> instants.last() <= t,
    ensures
        bounded_by(window_after(instants, limit), t),
{
    if instants.len() >= 1 {
        lemma_recent_in_window(window_after(instants.drop_last(), limit), instants.last());
    }
}

/// The stored window never holds more than `limit` instants.
proof fn lemma_window_len(instants: Seq<u64>, limit: usize)
    ensures
        window_after(instants, limit).len() <= limit,
    decreases instants.len(),
{
    broadcast use Seq::<_>::lemma_filter_len;

    if instants.len() > 0 {
        lemma_window_len(instants.drop_last(), limit);
    }
}

/// Under nondecreasing instants, every allowed call whose instant lies in
/// the trailing window ending at `t_end` is still present in the stored
/// window, pruned to that same trailing window.
proof fn lemma_allowed_in_window_bound(instants: Seq<u64>, limit: usize, t_end: u64)
    requires
        nondecreasing(instants),
        instants.len() >= 1 ==> instants.last() <= t_end,
    ensures
        allowed_in_window(instants, limit, t_end) <= recent(
            window_after(instants, limit),
            t_end,
        ).len(),
    decreases instants.len(),
{
    if instants.len() == 0 {
        reveal_with_fuel(Seq::filter, 1);
    } else {
        let s0 = instants.drop_last();
        let m = instants.last();
        assert(nondecreasing(s0)) by {
            assert forall|i: int, j: int| 0 <= i <= j < s0.len() implies s0[i] <= s0[j] by {
                assert(instants[i] <= instants[j]);
            }
        }
        if s0.len() >= 1 {
            assert(instants[instants.len() - 2] <= instants[instants.len() - 1]);
        }
        lemma_allowed_in_window_bound(s0, limit, t_end);
        let w0 = window_after(s0, limit);
        let kept = recent(w0, m);
        lemma_window_bounded(s0, limit, m);
        lemma_recent_absorb(w0, m, t_end);
        let pend = (|t: u64| spec_cutoff(t_end) <= t <= t_end);
        kept.lemma_filter_push(m, pend);
        assert(instants.take(instants.len() - 1) =~= s0);
    }
}

/// Sliding-window guarantee: with a clock that never runs backwards, at
/// most `limit` calls for a key are allowed inside any trailing window.
pub proof fn lemma_no_overadmission(instants: Seq<u64>, limit: usize, t_end: u64)
    requires
        nondecreasing(instants),
    ensures
        allowed_in_window(instants, limit, t_end) <= limit,
    decreases instants.len(),
{
    broadcast use Seq::<_>::lemma_filter_len;

    if instants.len() == 0 {
    } else if instants.last() > t_end {
        assert(nondecreasing(instants.drop_last())) by {
            assert forall|i: int, j: int|
                0 <= i <= j < instants.drop_last().len() implies instants.drop_last()[i]
                <= instants.drop_last()[j] by {
                assert(instants[i] <= instants[j]);
            }
        }
        lemma_no_overadmission(instants.drop_last(), limit, t_end);
    } else {
        lemma_allowed_in_window_bound(instants, limit, t_end);
        lemma_window_len(instants, limit);
    }
}

/// After a key's whole history has aged out of the trailing window, a
/// call with any positive limit is allowed again and starts a fresh
/// window holding only its own instant.
pub proof fn lemma_window_slides(
    pre: RateLimiter,
    post: RateLimiter,
    key: i64,
    limit: usize,
    now: u64,
    allowed: bool,
)
    requires
        RateLimiter::limiter_step(pre, post, key, limit, now, allowed),
        limit >= 1,
        forall|j: int|
            0 <= j < pre.window(key).len() ==> #[trigger] pre.window(key)[j] < spec_cutoff(now),
    ensures
        allowed,
        post.window(key) == seq![now],
{
    let pred = (|t: u64| spec_cutoff(now) <= t <= now);
    pre.window(key).lemma_all_neg_filter_empty(pred);
    assert(post.window(key) =~= seq![now]);
}

/// Different keys have independent windows: a decision for one key neither
/// reads nor changes the history of any other key.
pub proof fn lemma_keys_independent(
    pre: RateLimiter,
    post: RateLimiter,
    key: i64,
    limit: usize,
    now: u64,
    allowed: bool,
    other: i64,
)
    requires
        RateLimiter::limiter_step(pre, post, key, limit, now, allowed),
        other != key,
    ensures
        post.window(other) == pre.window(other),
{
}

} // verus!
