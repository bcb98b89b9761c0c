//! Per-key state: a rolling window of per-second counts plus bookkeeping
//! timestamps. A bucket only reports a threshold breach; the monitor
//! combines that report with the alert-dedup state.

use vstd::prelude::*;

use crate::rollingwindow::RollingWindow;
use crate::rollingwindow::sat_u16;
use crate::rollingwindow::sum_counts;
use crate::rollingwindow::window_update;

verus! {

/// Mathematical model of a [`Bucket`].
#[verifier::ext_equal]
pub struct BucketView {
    pub last_ts: u64,
    pub window: Seq<(u64, u32)>,
    pub capacity: nat,
    pub sum_count: u16,
    pub last_alert_ts: Option<u64>,
    pub window_size: nat,
    pub start_ts: u64,
}

/// The state of a bucket freshly created at `now` for a window of `wsize`
/// seconds.
pub open spec fn bucket_new_view(now: u64, wsize: nat) -> BucketView {
    BucketView {
        last_ts: now,
        window: Seq::empty(),
        capacity: wsize,
        sum_count: 0,
        last_alert_ts: None,
        window_size: wsize,
        start_ts: now,
    }
}

/// The state of a bucket after recording one event at `now`.
pub open spec fn bucket_updated(b: BucketView, now: u64) -> BucketView {
    BucketView { last_ts: now, window: window_update(b.window, 1, now, b.capacity), ..b }
}

/// Whether a bucket's window total strictly exceeds `threshold`.
pub open spec fn bucket_over_threshold(b: BucketView, threshold: u16) -> bool {
    sat_u16(sum_counts(b.window)) > threshold
}

pub struct Bucket {
    /// Timestamp of the most recent update.
    pub last_ts: u64,
    pub rolling_window: RollingWindow,
    /// Diagnostic total, kept at its initial value by the engine.
    pub sum_count: u16,
    /// Most recent alert emission recorded against this bucket, if any.
    pub last_alert_ts: Option<u64>,
    /// The window width in seconds.
    pub window_size: usize,
    /// Timestamp of creation.
    pub start_ts: u64,
}

impl View for Bucket {
    type V = BucketView;

    open spec fn view(&self) -> BucketView {
        BucketView {
            last_ts: self.last_ts,
            window: self.rolling_window.window@,
            capacity: self.rolling_window.capacity as nat,
            sum_count: self.sum_count,
            last_alert_ts: self.last_alert_ts,
            window_size: self.window_size as nat,
            start_ts: self.start_ts,
        }
    }
}

impl Bucket {
    pub open spec fn wf(&self) -> bool {
        &&& self.rolling_window.wf()
        &&& self.rolling_window.capacity == self.window_size
    }

    pub fn new(_ja3: String, current_ts: u64, window_size: usize) -> (r: Bucket)
        ensures
            r@ == bucket_new_view(current_ts, window_size as nat),
            r.wf(),
    {
        let r = Bucket {
            last_ts: current_ts,
            rolling_window: RollingWindow::new(window_size),
            sum_count: 0,
            last_alert_ts: None,
            window_size,
            start_ts: current_ts,
        };
        proof {
            assert(r@ =~= bucket_new_view(current_ts, window_size as nat));
        }
        r
    }

    /// Record one event at `current_ts`: push it through the rolling window
    /// and remember the update time.
    pub fn update(&mut self, current_ts: u64)
        requires
            old(self).wf(),
        ensures
            final(self)@ == bucket_updated(old(self)@, current_ts),
            final(self).wf(),
    {
        self.rolling_window.update(1, current_ts);
        self.last_ts = current_ts;
        proof {
            assert(self@ =~= bucket_updated(old(self)@, current_ts));
        }
    }

    /// Strict threshold check: a total equal to `threshold` does not trip.
    pub fn check_threshold(&self, threshold: u16) -> (r: bool)
        ensures
            r == bucket_over_threshold(self@, threshold),
    {
        self.rolling_window.sum() > threshold
    }
}

} // verus!
