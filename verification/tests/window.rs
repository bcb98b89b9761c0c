use susspekt::bucket::Bucket;
use susspekt::rollingwindow::RollingWindow;

const T0: u64 = 1_700_000_000;

#[test]
fn test_initialization() {
    let window = RollingWindow::new(60);
    assert!(window.window.is_empty());
    assert_eq!(window.capacity, 60);
}

#[test]
fn test_single_update() {
    let mut window = RollingWindow::new(60);
    window.update(10, T0);
    assert_eq!(window.window.len(), 1);
    assert_eq!(window.sum(), 10);
}

#[test]
fn test_multiple_updates_within_capacity() {
    let mut window = RollingWindow::new(60);

    // multiple updates in same instant should be one object in the window
    for _i in 0..30 {
        window.update(1, T0);
    }
    println!("window len {:?}", window.window.len());
    assert_eq!(window.window.len(), 1);
    assert_eq!(window.sum(), 30);

    // multiple updates over a time span should be spread out in the window
    for i in 0..30 {
        window.update(1, T0 + i);
    }
    println!("window len {:?}", window.window.len());
    assert_eq!(window.window.len(), 30);
    assert_eq!(window.sum(), 60); // merged with previous data in the window
}

#[test]
fn test_capacity_limit() {
    let ts = T0;
    let mut window = RollingWindow::new(60);
    for i in 0..100 {
        window.update(1, ts + i);
    }
    assert_eq!(window.window.len(), 60);
    assert_eq!(window.sum(), 60);
}

#[test]
fn test_time_based_removal() {
    let mut window = RollingWindow::new(5);
    let start = T0;
    window.update(1, start);
    window.update(2, start + 6);
    assert_eq!(window.window.len(), 1);
}

#[test]
fn test_sparse_update() {
    let mut window = RollingWindow::new(5);
    let start = T0;
    window.update(1, start);
    window.update(2, start + 10);
    assert_eq!(window.window.len(), 1);
}

#[test]
fn exactly_window_old_entry_is_retained() {
    let mut window = RollingWindow::new(60);
    window.update(3, T0);
    window.update(1, T0 + 1);
    // at T0 + 60 the first entry is exactly 60 seconds old: both stay
    window.update(1, T0 + 60);
    assert_eq!(window.window.front().map(|e| e.0), Some(T0));
    assert_eq!(window.window.len(), 3);
    assert_eq!(window.sum(), 5);
    // one second later it is 61 seconds old and leaves
    window.update(1, T0 + 61);
    assert_eq!(window.window.front().map(|e| e.0), Some(T0 + 1));
    assert_eq!(window.window.len(), 3);
    assert_eq!(window.sum(), 3);
}

#[test]
fn same_second_updates_merge_like_one_big_update() {
    let mut a = RollingWindow::new(60);
    a.update(7, T0 + 5);
    a.update(11, T0 + 5);
    let mut b = RollingWindow::new(60);
    b.update(18, T0 + 5);
    assert_eq!(a.sum(), b.sum());
    assert_eq!(a.window.len(), b.window.len());
    assert_eq!(a.sum(), 18);
}

#[test]
fn sum_saturates_at_u16_max() {
    let mut window = RollingWindow::new(10);
    window.update(40_000, T0);
    window.update(40_000, T0 + 1);
    assert_eq!(window.sum(), u16::MAX);
}

#[test]
fn clock_regression_appends_without_panic() {
    let mut window = RollingWindow::new(60);
    window.update(1, T0 + 100);
    window.update(1, T0 + 50);
    assert_eq!(window.window.len(), 2);
    assert_eq!(window.sum(), 2);
}

#[test]
fn full_window_drops_sample_when_eviction_freed_no_room() {
    let mut window = RollingWindow::new(2);
    window.update(1, T0 + 100);
    window.update(1, T0 + 50); // regression: appended out of order
    // nothing is older than 2 s relative to T0 + 51, window is full
    window.update(1, T0 + 51);
    assert_eq!(window.window.len(), 2);
    assert_eq!(window.sum(), 2);
}

#[test]
fn test_bucket_initialization() {
    let now = T0;
    let window_size: usize = 300; // 5 minutes
    let bucket = Bucket::new("some_ja3".to_string(), now, window_size);

    assert_eq!(bucket.last_ts, now);
    assert_eq!(bucket.sum_count, 0);
    assert!(bucket.last_alert_ts.is_none());
    assert_eq!(bucket.window_size, window_size);
}

#[test]
fn test_update() {
    let mut bucket = Bucket::new("test_ja3".to_string(), T0, 60);
    let current_ts = T0;

    bucket.update(current_ts);
    assert_eq!(bucket.last_ts, current_ts);
}

#[test]
fn test_rolling_window_behavior() {
    let mut bucket = Bucket::new("test_ja3".to_string(), T0, 60);
    let start_ts = T0;

    for _ in 0..70 {
        bucket.update(start_ts + 1);
    }

    println!("rw-1 {}", bucket.rolling_window.sum());
    assert!(bucket.rolling_window.sum() == 70);

    let start_ts = T0;
    for _ in 0..60 {
        bucket.update(start_ts + 1);
    }
    println!("rw-2 {}", bucket.rolling_window.sum());
    assert!(bucket.rolling_window.sum() == 130);
}

#[test]
fn test_threshold_check() {
    let mut bucket = Bucket::new("test_ja3".to_string(), T0, 60);

    for _ in 0..100 {
        bucket.update(T0);
    }

    assert!(bucket.check_threshold(50));
}

#[test]
fn threshold_is_strict() {
    let mut bucket = Bucket::new("test_ja3".to_string(), T0, 60);
    for _ in 0..100 {
        bucket.update(T0);
    }
    // the total is exactly 100: equality does not trigger
    assert!(!bucket.check_threshold(100));
    assert!(bucket.check_threshold(99));
}

#[test]
fn saturated_total_still_triggers() {
    let mut bucket = Bucket::new("test_ja3".to_string(), T0, 60);
    bucket.rolling_window.update(40_000, T0);
    bucket.rolling_window.update(40_000, T0 + 1);
    assert!(bucket.check_threshold(u16::MAX - 1));
    assert!(!bucket.check_threshold(u16::MAX));
}
