//! The alerter's dedup state. The ledger maps each key to the time of its
//! last accepted alert; `alert` decides whether a violation becomes a
//! fresh alert, a re-alert, or is suppressed, and `record_success` is
//! called once the transport has accepted a payload. The HTTP transport
//! itself lives outside the library.

use vstd::prelude::*;

use crate::args::AppArgs;
use crate::clock::age_secs;
use crate::clock::elapsed_secs;
use crate::keymap::KeyMap;
use crate::keymap::keep_entries;
use crate::keymap::kv_map;
use crate::keymap::lemma_kv_map_keep;

verus! {

/// One alert bound for the enforcement endpoint.
pub struct AlertPayload {
    pub key: String,
    /// Requested block duration in seconds.
    pub block_time: u32,
    /// Whether this repeats an alert recorded more than one window ago.
    pub realert: bool,
}

/// Whether a ledger collection is due at `now`.
pub open spec fn ledger_gc_due(last_gc: u64, now: u64, w: u64) -> bool {
    age_secs(now, last_gc) >= 2 * w
}

/// The ledger after collection at `now`: entries recorded within the last
/// `2 * w` seconds survive; strictly older ones leave.
pub open spec fn ledger_gc(m: Map<Seq<char>, u64>, now: u64, w: u64) -> Map<Seq<char>, u64> {
    Map::new(
        |k: Seq<char>| m.contains_key(k) && age_secs(now, m[k]) <= 2 * w,
        |k: Seq<char>| m[k],
    )
}

/// The ledger seen by a decision at `now`: collected first when a
/// collection is due.
pub open spec fn ledger_after_gc(m: Map<Seq<char>, u64>, last_gc: u64, now: u64, w: u64) -> Map<
    Seq<char>,
    u64,
> {
    if ledger_gc_due(last_gc, now, w) {
        ledger_gc(m, now, w)
    } else {
        m
    }
}

/// A key is suppressed when its last recorded post is less than one
/// window old.
pub open spec fn alert_suppressed(m: Map<Seq<char>, u64>, k: Seq<char>, now: u64, w: u64) -> bool {
    m.contains_key(k) && age_secs(now, m[k]) < w
}

/// Dedup law: once the ledger records an accepted alert for a key, every
/// decision for that key less than one window later is a suppression —
/// whatever the collection schedule does in between — so at most one
/// accepted post per key can fall within any window of width `w`.
pub proof fn lemma_dedup_within_window(
    m: Map<Seq<char>, u64>,
    last_gc: u64,
    k: Seq<char>,
    now: u64,
    w: u64,
)
    requires
        m.contains_key(k),
        age_secs(now, m[k]) < w,
    ensures
        alert_suppressed(ledger_after_gc(m, last_gc, now, w), k, now, w),
{
}

pub struct HttpPoster {
    /// The alert ledger: key to time of last accepted post.
    pub alerts: KeyMap<u64>,
    pub args: AppArgs,
    pub last_gc: u64,
}

impl HttpPoster {
    pub open spec fn wf(&self) -> bool {
        &&& self.alerts.wf()
        &&& self.args.window as int * 2 <= u64::MAX
    }

    pub fn new(args: AppArgs, now: u64) -> (r: HttpPoster)
        requires
            args.window as int * 2 <= u64::MAX,
        ensures
            r.wf(),
            r.alerts@ == Map::<Seq<char>, u64>::empty(),
            r.args == args,
            r.last_gc == now,
    {
        HttpPoster { alerts: KeyMap::new(), args, last_gc: now }
    }

    /// Evict stale ledger entries once at least two windows have passed
    /// since the previous collection.
    pub fn gc(&mut self, now: u64)
        requires
            old(self).wf(),
        ensures
            final(self).wf(),
            final(self).alerts@ == ledger_after_gc(
                old(self).alerts@,
                old(self).last_gc,
                now,
                old(self).args.window,
            ),
            final(self).last_gc == if ledger_gc_due(old(self).last_gc, now, old(self).args.window) {
                now
            } else {
                old(self).last_gc
            },
            final(self).args == old(self).args,
    {
        let w = self.args.window;
        let w2: u64 = w * 2;
        if elapsed_secs(now, self.last_gc) < w2 {
            return ;
        }
        let ghost entries0 = self.alerts.entries@;
        let ghost pred = |e: (String, u64)| age_secs(now, e.1) <= 2 * (w as int);
        let ghost n = entries0.len();
        let mut i: usize = 0;
        let ghost mut j: int = 0;
        proof {
            assert(entries0.subrange(0, 0) =~= Seq::<(String, u64)>::empty());
            assert(entries0.subrange(0, n as int) =~= entries0);
            assert(self.alerts.entries@ =~= keep_entries(entries0.subrange(0, j), pred)
                + entries0.subrange(j, n as int));
        }
        loop
            invariant
                0 <= j <= n,
                n == entries0.len(),
                i == keep_entries(entries0.subrange(0, j), pred).len(),
                forall|e: (String, u64)| #[trigger]
                    pred(e) == (age_secs(now, e.1) <= 2 * (w as int)),
                self.alerts.entries@ == keep_entries(entries0.subrange(0, j), pred)
                    + entries0.subrange(j, n as int),
                w == self.args.window,
                w2 == w * 2,
                self.args == old(self).args,
                self.last_gc == old(self).last_gc,
            ensures
                self.alerts.entries@ == keep_entries(entries0, pred),
                self.args == old(self).args,
                self.last_gc == old(self).last_gc,
            decreases n - j,
        {
            if i == self.alerts.entries.len() {
                proof {
                    assert(entries0.subrange(j, n as int).len() == 0);
                    assert(j == n);
                    assert(entries0.subrange(0, n as int) =~= entries0);
                }
                break ;
            }
            let ghost ksub = keep_entries(entries0.subrange(0, j), pred);
            proof {
                assert(self.alerts.entries@[i as int] == entries0.subrange(j, n as int)[0]);
                assert(self.alerts.entries@[i as int] == entries0[j]);
                assert(entries0.subrange(0, j + 1).drop_last() =~= entries0.subrange(0, j));
                assert(entries0.subrange(0, j + 1).last() == entries0[j]);
            }
            let ts = self.alerts.entries[i].1;
            if elapsed_secs(now, ts) > w2 {
                self.alerts.entries.remove(i);
                proof {
                    assert(!pred(entries0[j]));
                    assert(keep_entries(entries0.subrange(0, j + 1), pred) == ksub);
                    assert(self.alerts.entries@ =~= ksub + entries0.subrange(j + 1, n as int));
                    j = j + 1;
                }
            } else {
                i = i + 1;
                proof {
                    assert(pred(entries0[j]));
                    assert(keep_entries(entries0.subrange(0, j + 1), pred) == ksub.push(
                        entries0[j],
                    ));
                    assert(self.alerts.entries@ =~= ksub.push(entries0[j]) + entries0.subrange(
                        j + 1,
                        n as int,
                    ));
                    j = j + 1;
                }
            }
        }
        self.last_gc = now;
        proof {
            let q = |k: Seq<char>, ts: u64| age_secs(now, ts) <= 2 * (w as int);
            assert forall|e: (String, u64)| #[trigger] pred(e) == q(e.0@, e.1@) by {}
            lemma_kv_map_keep(entries0, pred, q);
            assert(self.alerts@ =~= ledger_gc(kv_map(entries0), now, w));
        }
    }

    /// Decide one alert: collect the ledger when due, then suppress when
    /// the key's last accepted post is less than one window old, and
    /// otherwise hand back the payload to post — marked as a re-alert
    /// when the ledger still remembers the key. In dry-run mode nothing
    /// is handed out, but the ledger records the send time, which keeps
    /// the dedup behaviour identical.
    pub fn alert(&mut self, key: &str, now: u64) -> (r: Option<AlertPayload>)
        requires
            old(self).wf(),
        ensures
            final(self).wf(),
            final(self).args == old(self).args,
            ({
                let m1 = ledger_after_gc(
                    old(self).alerts@,
                    old(self).last_gc,
                    now,
                    old(self).args.window,
                );
                let due = ledger_gc_due(old(self).last_gc, now, old(self).args.window);
                &&& final(self).last_gc == if due {
                    now
                } else {
                    old(self).last_gc
                }
                &&& alert_suppressed(m1, key@, now, old(self).args.window) ==> r is None
                    && final(self).alerts@ == m1
                &&& !alert_suppressed(m1, key@, now, old(self).args.window)
                    && old(self).args.dry_run ==> r is None && final(self).alerts@ == m1.insert(
                    key@,
                    now,
                )
                &&& !alert_suppressed(m1, key@, now, old(self).args.window) && !old(
                    self,
                ).args.dry_run ==> final(self).alerts@ == m1 && (match r {
                    Some(p) => {
                        &&& p.key@ == key@
                        &&& p.block_time == old(self).args.block_seconds
                        &&& p.realert == m1.contains_key(key@)
                    },
                    None => false,
                })
            }),
    {
        self.gc(now);
        let realert = match self.alerts.get(key) {
            Some(last) => {
                if elapsed_secs(now, *last) < self.args.window {
                    return None;
                }
                true
            },
            None => false,
        };
        if self.args.dry_run {
            self.alerts.set(key, now);
            return None;
        }
        Some(
            AlertPayload {
                key: key.to_owned(),
                block_time: self.args.block_seconds,
                realert,
            },
        )
    }

    /// Record that the transport accepted the alert for `key` at `now`.
    /// The transport's failures leave the ledger unchanged simply by not
    /// calling this.
    pub fn record_success(&mut self, key: &str, now: u64)
        requires
            old(self).wf(),
        ensures
            final(self).wf(),
            final(self).alerts@ == old(self).alerts@.insert(key@, now),
            final(self).args == old(self).args,
            final(self).last_gc == old(self).last_gc,
    {
        self.alerts.set(key, now);
    }
}

} // verus!
