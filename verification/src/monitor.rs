//! The monitor owns the bucket table: each incoming key is filtered
//! against the fingerprint whitelist, counted into its bucket, and judged
//! against the threshold and the re-alert guard; idle buckets are
//! garbage-collected every two windows.

use vstd::prelude::*;

use crate::args::AppArgs;
use crate::args::ja3_list;
use crate::bucket::Bucket;
use crate::bucket::BucketView;
use crate::bucket::bucket_new_view;
use crate::bucket::bucket_over_threshold;
use crate::bucket::bucket_updated;
use crate::clock::age_secs;
use crate::clock::elapsed_secs;
use crate::keymap::KeyMap;
use crate::keymap::keep_entries;
use crate::keymap::kv_map;
use crate::keymap::lemma_kv_map_keep;
use crate::rollingwindow::sat_u16;
use crate::rollingwindow::sum_counts;
use crate::strutil::contains_str;
use crate::strutil::key_prefix;
use crate::strutil::prefix_before;
use crate::strutil::vec_contains_str;

verus! {

/// A stored bucket respects its window bound.
pub open spec fn bucket_view_wf(b: BucketView) -> bool {
    b.window.len() <= b.capacity && b.capacity == b.window_size
}

/// The bucket table after one event for `k` at `now`: the bucket is
/// created at `now` when absent, then records the event.
pub open spec fn table_processed(
    t: Map<Seq<char>, BucketView>,
    k: Seq<char>,
    now: u64,
    wsize: nat,
) -> Map<Seq<char>, BucketView> {
    t.insert(
        k,
        bucket_updated(
            if t.contains_key(k) {
                t[k]
            } else {
                bucket_new_view(now, wsize)
            },
            now,
        ),
    )
}

/// The alert decision for an updated bucket: the window total strictly
/// exceeds the threshold, and either no alert was recorded against the
/// bucket or it is more than one window old.
pub open spec fn violation_decided(b: BucketView, threshold: u16, window: u64, now: u64) -> bool {
    bucket_over_threshold(b, threshold) && (match b.last_alert_ts {
        None => true,
        Some(t) => age_secs(now, t) > window,
    })
}

/// Whether a garbage collection is due at `now`.
pub open spec fn gc_due(last_cleanup: u64, now: u64, w: u64) -> bool {
    age_secs(now, last_cleanup) >= 2 * w
}

/// The table after garbage collection at `now`: exactly the buckets
/// updated within the last `2 * w` seconds survive (a bucket whose update
/// time lies in the future counts as fresh).
pub open spec fn table_gc(t: Map<Seq<char>, BucketView>, now: u64, w: u64) -> Map<
    Seq<char>,
    BucketView,
> {
    Map::new(
        |k: Seq<char>| t.contains_key(k) && age_secs(now, t[k].last_ts) <= 2 * w,
        |k: Seq<char>| t[k],
    )
}

/// Garbage collection is idempotent: collecting twice at one instant with
/// no intervening updates leaves the same table as collecting once.
pub proof fn lemma_cleanup_idempotent(t: Map<Seq<char>, BucketView>, now: u64, w: u64)
    ensures
        table_gc(table_gc(t, now, w), now, w) == table_gc(t, now, w),
{
    assert(table_gc(table_gc(t, now, w), now, w) =~= table_gc(t, now, w));
}

pub struct Monitor {
    pub args: AppArgs,
    pub buckets: KeyMap<Bucket>,
    pub last_cleanup: u64,
    pub bucket_window: usize,
    pub counter: u64,
    pub last_counter_reset: u64,
    pub whitelisted_ja3: Vec<String>,
}

impl Monitor {
    pub open spec fn wf(&self) -> bool {
        &&& self.buckets.wf()
        &&& forall|k: Seq<char>|
            self.buckets@.contains_key(k) ==> bucket_view_wf(#[trigger] self.buckets@[k])
        &&& self.args.window as int * 2 <= u64::MAX
        &&& self.args.window <= usize::MAX
        &&& self.bucket_window == self.args.window as usize
    }

    pub fn new(args: AppArgs, now: u64) -> (r: Monitor)
        requires
            args.window as int * 2 <= u64::MAX,
            args.window <= usize::MAX,
        ensures
            r.wf(),
            r.args == args,
            r.buckets@ == Map::<Seq<char>, BucketView>::empty(),
            r.last_cleanup == now,
            r.counter == 0,
            r.last_counter_reset == now,
            r.bucket_window == args.window as usize,
            r.whitelisted_ja3@.map_values(|x: String| x@) == ja3_list(args.whitelist_ja3s@),
    {
        let whitelisted_ja3 = args.parse_whitelist_ja3();
        let bucket_window = args.window as usize;
        Monitor {
            args,
            buckets: KeyMap::new(),
            last_cleanup: now,
            bucket_window,
            counter: 0,
            last_counter_reset: now,
            whitelisted_ja3,
        }
    }

    /// Process one key: skip whitelisted fingerprints, count the event
    /// into the key's bucket, decide whether this constitutes a fresh
    /// violation, and run the periodic garbage collection. Returns `true`
    /// exactly when the violation should be propagated as an alert.
    pub fn process_key(&mut self, ja3: &str, current_ts: u64) -> (r: bool)
        requires
            old(self).wf(),
        ensures
            final(self).wf(),
            final(self).args == old(self).args,
            final(self).whitelisted_ja3 == old(self).whitelisted_ja3,
            final(self).bucket_window == old(self).bucket_window,
            final(self).last_counter_reset == old(self).last_counter_reset,
            contains_str(old(self).whitelisted_ja3@, prefix_before(ja3@, '-')) ==> {
                &&& r == false
                &&& final(self).buckets@ == old(self).buckets@
                &&& final(self).counter == old(self).counter
                &&& final(self).last_cleanup == old(self).last_cleanup
            },
            !contains_str(old(self).whitelisted_ja3@, prefix_before(ja3@, '-')) ==> {
                let t1 = table_processed(
                    old(self).buckets@,
                    ja3@,
                    current_ts,
                    old(self).bucket_window as nat,
                );
                let due = gc_due(old(self).last_cleanup, current_ts, old(self).args.window);
                &&& r == violation_decided(
                    t1[ja3@],
                    old(self).args.threshold,
                    old(self).args.window,
                    current_ts,
                )
                &&& final(self).counter == old(self).counter.wrapping_add(1)
                &&& final(self).buckets@ == if due {
                    table_gc(t1, current_ts, old(self).args.window)
                } else {
                    t1
                }
                &&& final(self).last_cleanup == if due {
                    current_ts
                } else {
                    old(self).last_cleanup
                }
            },
    {
        let pfx = key_prefix(ja3);
        if vec_contains_str(&self.whitelisted_ja3, pfx) {
            return false;
        }
        self.counter = self.counter.wrapping_add(1);
        let should_alert = self.update_or_insert_bucket(ja3, current_ts);
        self.periodic_cleanup(current_ts);
        should_alert
    }

    /// Get-or-create the bucket for `key`, record the event, and report
    /// the violation decision for the updated bucket.
    fn update_or_insert_bucket(&mut self, key: &str, current_ts: u64) -> (r: bool)
        requires
            old(self).wf(),
        ensures
            final(self).wf(),
            final(self).buckets@ == table_processed(
                old(self).buckets@,
                key@,
                current_ts,
                old(self).bucket_window as nat,
            ),
            r == violation_decided(
                final(self).buckets@[key@],
                old(self).args.threshold,
                old(self).args.window,
                current_ts,
            ),
            final(self).args == old(self).args,
            final(self).whitelisted_ja3 == old(self).whitelisted_ja3,
            final(self).bucket_window == old(self).bucket_window,
            final(self).counter == old(self).counter,
            final(self).last_cleanup == old(self).last_cleanup,
            final(self).last_counter_reset == old(self).last_counter_reset,
    {
        let threshold = self.args.threshold;
        let window = self.args.window;
        match self.buckets.get_mut(key) {
            Some(b) => {
                b.update(current_ts);
                let over = b.check_threshold(threshold);
                let alert_ok = match b.last_alert_ts {
                    None => true,
                    Some(t) => elapsed_secs(current_ts, t) > window,
                };
                over && alert_ok
            },
            None => {
                let mut nb = Bucket::new(key.to_owned(), current_ts, self.bucket_window);
                nb.update(current_ts);
                let over = nb.check_threshold(threshold);
                self.buckets.set(key, nb);
                over
            },
        }
    }

    /// Drop every bucket not updated within the last two windows; a
    /// bucket whose update time lies in the future is retained.
    pub fn cleanup_old_buckets(&mut self, current_ts: u64)
        requires
            old(self).wf(),
        ensures
            final(self).wf(),
            final(self).buckets@ == table_gc(old(self).buckets@, current_ts, old(self).args.window),
            forall|k: Seq<char>|
                final(self).buckets@.contains_key(k) ==> age_secs(
                    current_ts,
                    (#[trigger] final(self).buckets@[k]).last_ts,
                ) <= 2 * old(self).args.window,
            final(self).args == old(self).args,
            final(self).whitelisted_ja3 == old(self).whitelisted_ja3,
            final(self).bucket_window == old(self).bucket_window,
            final(self).counter == old(self).counter,
            final(self).last_cleanup == old(self).last_cleanup,
            final(self).last_counter_reset == old(self).last_counter_reset,
    {
        let w = self.args.window;
        let w2: u64 = w * 2;
        let ghost entries0 = self.buckets.entries@;
        let ghost pred = |e: (String, Bucket)| age_secs(current_ts, e.1.last_ts) <= 2 * (w as int);
        let ghost n = entries0.len();
        let mut i: usize = 0;
        let ghost mut j: int = 0;
        proof {
            assert(entries0.subrange(0, 0) =~= Seq::<(String, Bucket)>::empty());
            assert(entries0.subrange(0, n as int) =~= entries0);
            assert(self.buckets.entries@ =~= keep_entries(entries0.subrange(0, j), pred)
                + entries0.subrange(j, n as int));
        }
        loop
            invariant
                0 <= j <= n,
                n == entries0.len(),
                i == keep_entries(entries0.subrange(0, j), pred).len(),
                forall|e: (String, Bucket)| #[trigger]
                    pred(e) == (age_secs(current_ts, e.1.last_ts) <= 2 * (w as int)),
                self.buckets.entries@ == keep_entries(entries0.subrange(0, j), pred)
                    + entries0.subrange(j, n as int),
                w == self.args.window,
                w2 == w * 2,
                self.args == old(self).args,
                self.whitelisted_ja3 == old(self).whitelisted_ja3,
                self.bucket_window == old(self).bucket_window,
                self.counter == old(self).counter,
                self.last_cleanup == old(self).last_cleanup,
                self.last_counter_reset == old(self).last_counter_reset,
            ensures
                self.buckets.entries@ == keep_entries(entries0, pred),
                self.args == old(self).args,
                self.whitelisted_ja3 == old(self).whitelisted_ja3,
                self.bucket_window == old(self).bucket_window,
                self.counter == old(self).counter,
                self.last_cleanup == old(self).last_cleanup,
                self.last_counter_reset == old(self).last_counter_reset,
            decreases n - j,
        {
            if i == self.buckets.entries.len() {
                proof {
                    assert(entries0.subrange(j, n as int).len() == 0);
                    assert(j == n);
                    assert(entries0.subrange(0, n as int) =~= entries0);
                }
                break ;
            }
            let ghost ksub = keep_entries(entries0.subrange(0, j), pred);
            proof {
                assert(self.buckets.entries@[i as int] == entries0.subrange(j, n as int)[0]);
                assert(self.buckets.entries@[i as int] == entries0[j]);
                assert(entries0.subrange(0, j + 1).drop_last() =~= entries0.subrange(0, j));
                assert(entries0.subrange(0, j + 1).last() == entries0[j]);
            }
            let last_ts = self.buckets.entries[i].1.last_ts;
            if elapsed_secs(current_ts, last_ts) > w2 {
                self.buckets.entries.remove(i);
                proof {
                    assert(!pred(entries0[j]));
                    assert(keep_entries(entries0.subrange(0, j + 1), pred) == ksub);
                    assert(self.buckets.entries@ =~= ksub + entries0.subrange(j + 1, n as int));
                    j = j + 1;
                }
            } else {
                i = i + 1;
                proof {
                    assert(pred(entries0[j]));
                    assert(keep_entries(entries0.subrange(0, j + 1), pred) == ksub.push(
                        entries0[j],
                    ));
                    assert(self.buckets.entries@ =~= ksub.push(entries0[j]) + entries0.subrange(
                        j + 1,
                        n as int,
                    ));
                    j = j + 1;
                }
            }
        }
        proof {
            let q = |k: Seq<char>, bv: BucketView| age_secs(current_ts, bv.last_ts) <= 2 * (
            w as int);
            assert forall|e: (String, Bucket)| #[trigger] pred(e) == q(e.0@, e.1@) by {}
            lemma_kv_map_keep(entries0, pred, q);
            assert(self.buckets@ =~= table_gc(kv_map(entries0), current_ts, w));
            assert forall|k: Seq<char>| self.buckets@.contains_key(k) implies bucket_view_wf(
                #[trigger] self.buckets@[k],
            ) by {
                assert(old(self).buckets@.contains_key(k) && self.buckets@[k] == old(
                    self,
                ).buckets@[k]);
            }
        }
    }

    /// Run [`Self::cleanup_old_buckets`] when the last collection lies at
    /// least two windows back, and remember the collection time.
    pub fn periodic_cleanup(&mut self, current_ts: u64)
        requires
            old(self).wf(),
        ensures
            final(self).wf(),
            gc_due(old(self).last_cleanup, current_ts, old(self).args.window) ==> {
                &&& final(self).buckets@ == table_gc(
                    old(self).buckets@,
                    current_ts,
                    old(self).args.window,
                )
                &&& final(self).last_cleanup == current_ts
            },
            !gc_due(old(self).last_cleanup, current_ts, old(self).args.window) ==> {
                &&& final(self).buckets@ == old(self).buckets@
                &&& final(self).last_cleanup == old(self).last_cleanup
            },
            final(self).args == old(self).args,
            final(self).whitelisted_ja3 == old(self).whitelisted_ja3,
            final(self).bucket_window == old(self).bucket_window,
            final(self).counter == old(self).counter,
            final(self).last_counter_reset == old(self).last_counter_reset,
    {
        let w2: u64 = self.args.window * 2;
        if elapsed_secs(current_ts, self.last_cleanup) >= w2 {
            self.cleanup_old_buckets(current_ts);
            self.last_cleanup = current_ts;
        }
    }

    /// Record on the bucket that an alert for `key` was accepted at
    /// `now`; a missing bucket is a harmless no-op.
    pub fn mark_alerted(&mut self, key: &str, now: u64)
        requires
            old(self).wf(),
        ensures
            final(self).wf(),
            old(self).buckets@.contains_key(key@) ==> final(self).buckets@ == old(
                self,
            ).buckets@.insert(
                key@,
                BucketView { last_alert_ts: Some(now), ..old(self).buckets@[key@] },
            ),
            !old(self).buckets@.contains_key(key@) ==> final(self).buckets@ == old(self).buckets@,
            final(self).args == old(self).args,
            final(self).whitelisted_ja3 == old(self).whitelisted_ja3,
            final(self).bucket_window == old(self).bucket_window,
            final(self).counter == old(self).counter,
            final(self).last_cleanup == old(self).last_cleanup,
            final(self).last_counter_reset == old(self).last_counter_reset,
    {
        match self.buckets.get_mut(key) {
            Some(b) => {
                b.last_alert_ts = Some(now);
                proof {
                    assert(b@ =~= BucketView {
                        last_alert_ts: Some(now),
                        ..old(self).buckets@[key@]
                    });
                }
            },
            None => {},
        }
    }

    /// The number of buckets currently held, for diagnostic logging.
    pub fn log_current_state(&self) -> (r: usize)
        ensures
            r == self.buckets.entries@.len(),
    {
        self.buckets.entries.len()
    }

    /// The per-second counts and the saturated total of the bucket for
    /// `key`, for diagnostic logging; `None` when the bucket is absent.
    pub fn log_bucket(&self, key: &str) -> (r: Option<(Vec<u32>, u16)>)
        requires
            self.wf(),
        ensures
            match r {
                Some(pair) => {
                    &&& self.buckets@.contains_key(key@)
                    &&& pair.0@ == self.buckets@[key@].window.map_values(|e: (u64, u32)| e.1)
                    &&& pair.1 == sat_u16(sum_counts(self.buckets@[key@].window))
                },
                None => !self.buckets@.contains_key(key@),
            },
    {
        match self.buckets.get(key) {
            Some(b) => {
                let total = b.rolling_window.sum();
                let mut vals: Vec<u32> = Vec::new();
                let n = b.rolling_window.window.len();
                for i in 0..n
                    invariant
                        n == b.rolling_window.window@.len(),
                        vals@ =~= b.rolling_window.window@.subrange(0, i as int).map_values(
                            |e: (u64, u32)| e.1,
                        ),
                {
                    vals.push(b.rolling_window.window[i].1);
                    proof {
                        assert(b.rolling_window.window@.subrange(0, i + 1).drop_last()
                            =~= b.rolling_window.window@.subrange(0, i as int));
                    }
                }
                proof {
                    assert(b.rolling_window.window@.subrange(0, n as int)
                        =~= b.rolling_window.window@);
                }
                Some((vals, total))
            },
            None => None,
        }
    }

    /// Report and reset the key-rate counter once a second; `None` while
    /// less than a second has passed since the last report.
    pub fn print_stats(&mut self, now: u64) -> (r: Option<u64>)
        requires
            old(self).wf(),
        ensures
            final(self).wf(),
            age_secs(now, old(self).last_counter_reset) >= 1 ==> {
                &&& r == Some(old(self).counter)
                &&& final(self).counter == 0
                &&& final(self).last_counter_reset == now
            },
            age_secs(now, old(self).last_counter_reset) < 1 ==> {
                &&& r == None::<u64>
                &&& final(self).counter == old(self).counter
                &&& final(self).last_counter_reset == old(self).last_counter_reset
            },
            final(self).buckets@ == old(self).buckets@,
            final(self).args == old(self).args,
            final(self).whitelisted_ja3 == old(self).whitelisted_ja3,
            final(self).bucket_window == old(self).bucket_window,
            final(self).last_cleanup == old(self).last_cleanup,
    {
        if elapsed_secs(now, self.last_counter_reset) >= 1 {
            let c = self.counter;
            self.counter = 0;
            self.last_counter_reset = now;
            Some(c)
        } else {
            None
        }
    }
}

} // verus!
