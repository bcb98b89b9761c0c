//! A bounded sliding window of `(second, count)` entries.
//!
//! `update` first evicts entries older than `capacity` seconds from the
//! front (strictly older: an entry exactly `capacity` seconds old stays),
//! then merges the new sample into the back entry when it falls in the same
//! whole second, and otherwise appends a fresh entry while room remains.
//! Counts merge with saturating addition; `sum` saturates at `u16::MAX`.

use std::collections::VecDeque;
use vstd::prelude::*;

use crate::clock::age_secs;
use crate::clock::elapsed_secs;

verus! {

/// True when the entry is strictly older than `cap` seconds at time `now`.
pub open spec fn entry_old(e: (u64, u32), now: u64, cap: nat) -> bool {
    age_secs(now, e.0) > cap
}

/// Drop entries strictly older than `cap` seconds from the front, stopping
/// at the first entry that is recent enough.
pub open spec fn evict_front(s: Seq<(u64, u32)>, now: u64, cap: nat) -> Seq<(u64, u32)>
    decreases s.len(),
{
    if s.len() > 0 && entry_old(s[0], now, cap) {
        evict_front(s.drop_first(), now, cap)
    } else {
        s
    }
}

/// `u32` addition that sticks at `u32::MAX` instead of wrapping.
pub open spec fn sat_add_u32(a: u32, b: u32) -> u32 {
    if a + b > u32::MAX {
        u32::MAX
    } else {
        (a + b) as u32
    }
}

/// The window contents after one update: evict the stale front, then either
/// merge into a same-second back entry, append while below capacity, or drop
/// the sample when the window is still full after eviction.
pub open spec fn window_update(s: Seq<(u64, u32)>, value: u32, now: u64, cap: nat) -> Seq<
    (u64, u32),
> {
    let e = evict_front(s, now, cap);
    if e.len() > 0 && e.last().0 == now {
        e.update(e.len() - 1, (now, sat_add_u32(e.last().1, value)))
    } else if e.len() < cap {
        e.push((now, value))
    } else {
        e
    }
}

/// Exact (unsaturated) total of the counts in the window.
pub open spec fn sum_counts(s: Seq<(u64, u32)>) -> int
    decreases s.len(),
{
    if s.len() == 0 {
        0
    } else {
        sum_counts(s.drop_last()) + s.last().1
    }
}

/// A nonnegative total clamped to the width of `u16`.
pub open spec fn sat_u16(n: int) -> u16
    recommends
        n >= 0,
{
    if n > u16::MAX {
        u16::MAX
    } else {
        n as u16
    }
}

/// Entry timestamps strictly increase: the window is ordered and holds at
/// most one entry per wall-clock second.
pub open spec fn ts_strictly_increasing(s: Seq<(u64, u32)>) -> bool {
    forall|i: int, j: int| 0 <= i < j < s.len() ==> s[i].0 < s[j].0
}

pub struct RollingWindow {
    pub window: VecDeque<(u64, u32)>,
    pub capacity: usize,
}

impl RollingWindow {
    /// The window never holds more entries than its capacity.
    pub open spec fn wf(&self) -> bool {
        self.window@.len() <= self.capacity
    }

    pub fn new(capacity: usize) -> (r: RollingWindow)
        ensures
            r.window@ == Seq::<(u64, u32)>::empty(),
            r.capacity == capacity,
            r.wf(),
    {
        RollingWindow { window: VecDeque::with_capacity(capacity), capacity }
    }

    pub fn update(&mut self, value: u32, timestamp: u64)
        requires
            old(self).wf(),
        ensures
            final(self).window@ == window_update(
                old(self).window@,
                value,
                timestamp,
                old(self).capacity as nat,
            ),
            final(self).capacity == old(self).capacity,
            final(self).wf(),
    {
        let ghost s0 = self.window@;
        let ghost cap = self.capacity as nat;
        // Remove entries strictly older than `capacity` seconds.
        loop
            invariant
                self.capacity == old(self).capacity,
                self.window@.len() <= s0.len(),
                cap == old(self).capacity as nat,
                evict_front(self.window@, timestamp, cap) == evict_front(s0, timestamp, cap),
            ensures
                self.capacity == old(self).capacity,
                self.window@ == evict_front(s0, timestamp, cap),
                self.window@.len() <= s0.len(),
            decreases self.window@.len(),
        {
            if self.window.len() == 0 {
                break ;
            }
            let front_ts = self.window[0].0;
            if elapsed_secs(timestamp, front_ts) > self.capacity as u64 {
                let ghost before = self.window@;
                self.window.pop_front();
                proof {
                    assert(self.window@ == before.drop_first());
                }
            } else {
                break ;
            }
        }
        // Merge into the back entry when the sample falls in the same second.
        let len = self.window.len();
        if len > 0 {
            let (back_ts, back_count) = self.window[len - 1];
            if timestamp == back_ts {
                let ghost e = self.window@;
                self.window.pop_back();
                let merged: u32 = if back_count > u32::MAX - value {
                    u32::MAX
                } else {
                    back_count + value
                };
                self.window.push_back((back_ts, merged));
                proof {
                    assert(self.window@ =~= e.update(e.len() - 1, (timestamp, sat_add_u32(e.last().1, value))));
                }
                return ;
            }
        }
        // Append a fresh entry; a still-full window drops the sample.
        if self.window.len() < self.capacity {
            self.window.push_back((timestamp, value));
        }
    }

    pub fn sum(&self) -> (r: u16)
        ensures
            r == sat_u16(sum_counts(self.window@)),
    {
        let mut acc: u64 = 0;
        let n = self.window.len();
        for i in 0..n
            invariant
                n == self.window@.len(),
                0 <= acc <= u16::MAX,
                acc == sat_u16(sum_counts(self.window@.subrange(0, i as int))),
        {
            proof {
                lemma_sum_counts_nonneg(self.window@.subrange(0, i as int));
                assert(self.window@.subrange(0, i + 1).drop_last() =~= self.window@.subrange(
                    0,
                    i as int,
                ));
                assert(self.window@.subrange(0, i + 1).last() == self.window@[i as int]);
                lemma_sum_counts_nonneg(self.window@.subrange(0, i + 1));
            }
            let c = self.window[i].1;
            let next = acc + c as u64;
            acc = if next > u16::MAX as u64 {
                u16::MAX as u64
            } else {
                next
            };
        }
        proof {
            assert(self.window@.subrange(0, n as int) =~= self.window@);
        }
        acc as u16
    }
}

pub proof fn lemma_sum_counts_nonneg(s: Seq<(u64, u32)>)
    ensures
        sum_counts(s) >= 0,
    decreases s.len(),
{
    if s.len() > 0 {
        lemma_sum_counts_nonneg(s.drop_last());
    }
}

/// Eviction removes a (possibly empty) stale prefix and keeps the rest: the
/// result is a suffix of the input, and every dropped entry was strictly
/// older than `cap` seconds.
pub proof fn lemma_evict_front_is_suffix(s: Seq<(u64, u32)>, now: u64, cap: nat) -> (k: int)
    ensures
        0 <= k <= s.len(),
        evict_front(s, now, cap) == s.subrange(k, s.len() as int),
        forall|i: int| 0 <= i < k ==> entry_old(#[trigger] s[i], now, cap),
    decreases s.len(),
{
    if s.len() > 0 && entry_old(s[0], now, cap) {
        let k1 = lemma_evict_front_is_suffix(s.drop_first(), now, cap);
        assert(s.drop_first().subrange(k1, s.drop_first().len() as int) =~= s.subrange(
            k1 + 1,
            s.len() as int,
        ));
        assert forall|i: int| 0 <= i < k1 + 1 implies entry_old(#[trigger] s[i], now, cap) by {
            if i > 0 {
                assert(s.drop_first()[i - 1] == s[i]);
            }
        }
        k1 + 1
    } else {
        assert(s.subrange(0, s.len() as int) =~= s);
        0
    }
}

/// Strict eviction boundary: an entry whose age is at most `cap` seconds —
/// including one exactly `cap` seconds old — survives eviction.
pub proof fn lemma_entry_within_window_retained(s: Seq<(u64, u32)>, now: u64, cap: nat, i: int)
    requires
        0 <= i < s.len(),
        age_secs(now, s[i].0) <= cap,
    ensures
        evict_front(s, now, cap).contains(s[i]),
{
    let k = lemma_evict_front_is_suffix(s, now, cap);
    assert(i >= k);
    assert(evict_front(s, now, cap)[i - k] == s[i]);
}

/// The front entry left by eviction is never stale.
pub proof fn lemma_evict_front_fresh(s: Seq<(u64, u32)>, now: u64, cap: nat)
    ensures
        evict_front(s, now, cap).len() > 0 ==> !entry_old(evict_front(s, now, cap)[0], now, cap),
    decreases s.len(),
{
    if s.len() > 0 && entry_old(s[0], now, cap) {
        lemma_evict_front_fresh(s.drop_first(), now, cap);
    }
}

/// Eviction is a no-op on a window whose front entry is not stale.
pub proof fn lemma_evict_front_noop(s: Seq<(u64, u32)>, now: u64, cap: nat)
    requires
        s.len() > 0 ==> !entry_old(s[0], now, cap),
    ensures
        evict_front(s, now, cap) == s,
{
}

/// Under monotone sampling the window invariants hold after every update:
/// timestamps stay strictly increasing (so the window is ordered and holds
/// at most one entry per second), every entry is at most `cap` seconds old
/// at the update instant, and the newest entry is not in the future.
pub proof fn lemma_window_update_invariants(s: Seq<(u64, u32)>, value: u32, now: u64, cap: nat)
    requires
        ts_strictly_increasing(s),
        s.len() > 0 ==> s.last().0 <= now,
    ensures
        ts_strictly_increasing(window_update(s, value, now, cap)),
        forall|i: int|
            0 <= i < window_update(s, value, now, cap).len() ==> age_secs(
                now,
                (#[trigger] window_update(s, value, now, cap)[i]).0,
            ) <= cap,
        window_update(s, value, now, cap).len() > 0 ==> window_update(s, value, now, cap).last().0
            <= now,
{
    let e = evict_front(s, now, cap);
    let k = lemma_evict_front_is_suffix(s, now, cap);
    lemma_evict_front_fresh(s, now, cap);
    let u = window_update(s, value, now, cap);
    assert forall|i: int| 0 <= i < e.len() implies age_secs(now, (#[trigger] e[i]).0) <= cap by {
        assert(e[i] == s[k + i]);
        if i > 0 {
            assert(s[k].0 < s[k + i].0);
        }
        lemma_age_entry(now, e[0].0, e[i].0, cap);
    }
    if e.len() > 0 && e.last().0 == now {
        assert(u =~= e.update(e.len() - 1, (now, sat_add_u32(e.last().1, value))));
        assert(forall|i: int| 0 <= i < u.len() - 1 ==> u[i] == e[i]);
        assert(u.last().0 == now);
    } else if e.len() < cap {
        assert(u == e.push((now, value)));
        if e.len() > 0 {
            assert(e.last() == s.last());
            assert(e.last().0 < now);
        }
        assert(forall|i: int| 0 <= i < u.len() - 1 ==> u[i] == e[i]);
        assert(age_secs(now, now) == 0);
    } else {
        assert(u == e);
    }
}

proof fn lemma_age_entry(now: u64, t0: u64, ti: u64, cap: nat)
    requires
        age_secs(now, t0) <= cap,
        t0 <= ti,
    ensures
        age_secs(now, ti) <= cap,
{
}

/// Merging law: updating with `v1` and then `v2` at one timestamp yields
/// exactly the window of a single update with `v1 + v2`; in particular the
/// sum and the length agree.
pub proof fn lemma_window_update_merges(s: Seq<(u64, u32)>, v1: u32, v2: u32, now: u64, cap: nat)
    requires
        v1 + v2 <= u32::MAX,
    ensures
        window_update(window_update(s, v1, now, cap), v2, now, cap) == window_update(
            s,
            (v1 + v2) as u32,
            now,
            cap,
        ),
        sum_counts(window_update(window_update(s, v1, now, cap), v2, now, cap)) == sum_counts(
            window_update(s, (v1 + v2) as u32, now, cap),
        ),
        window_update(window_update(s, v1, now, cap), v2, now, cap).len() == window_update(
            s,
            (v1 + v2) as u32,
            now,
            cap,
        ).len(),
{
    let e = evict_front(s, now, cap);
    lemma_evict_front_fresh(s, now, cap);
    let u1 = window_update(s, v1, now, cap);
    if e.len() > 0 && e.last().0 == now {
        let c = e.last().1;
        assert(u1 == e.update(e.len() - 1, (now, sat_add_u32(c, v1))));
        assert(u1.len() == e.len());
        assert(u1[0] == if e.len() == 1 {
            (now, sat_add_u32(c, v1))
        } else {
            e[0]
        });
        assert(!entry_old(u1[0], now, cap));
        lemma_evict_front_noop(u1, now, cap);
        assert(u1.last().0 == now);
        assert(window_update(u1, v2, now, cap) == u1.update(
            u1.len() - 1,
            (now, sat_add_u32(sat_add_u32(c, v1), v2)),
        ));
        assert(sat_add_u32(sat_add_u32(c, v1), v2) == sat_add_u32(c, (v1 + v2) as u32));
        assert(window_update(u1, v2, now, cap) =~= window_update(s, (v1 + v2) as u32, now, cap));
    } else if e.len() < cap {
        assert(u1 == e.push((now, v1)));
        assert(u1[0] == if e.len() == 0 {
            (now, v1)
        } else {
            e[0]
        });
        assert(age_secs(now, now) == 0);
        assert(!entry_old(u1[0], now, cap));
        lemma_evict_front_noop(u1, now, cap);
        assert(u1.last().0 == now);
        assert(window_update(u1, v2, now, cap) == u1.update(
            u1.len() - 1,
            (now, sat_add_u32(v1, v2)),
        ));
        assert(sat_add_u32(v1, v2) == (v1 + v2) as u32);
        assert(window_update(u1, v2, now, cap) =~= window_update(s, (v1 + v2) as u32, now, cap));
    } else {
        assert(u1 == e);
        if e.len() > 0 {
            lemma_evict_front_noop(u1, now, cap);
            assert(window_update(u1, v2, now, cap) == e);
        } else {
            assert(cap == 0);
            assert(window_update(u1, v2, now, cap) == e);
        }
    }
}

} // verus!
