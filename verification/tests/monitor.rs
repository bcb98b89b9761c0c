use std::time::Duration;

use susspekt::args::AppArgs;
use susspekt::monitor::Monitor;
use susspekt::whitelist::Whitelist;

const T0: u64 = 1_700_000_000;

fn test_args() -> AppArgs {
    AppArgs {
        interface: Some("Foo".to_string()),
        file: None,
        threshold: 1000,
        window: 60,
        alert_url: "Foo".to_string(),
        dry_run: true,
        block_seconds: 86400,
        whitelist_networks: "10.0.0.0/8, 192.168.0.0/16".to_string(),
        whitelist_ja3s: "None".to_string(),
        log_create_buckets: Some(false),
        agg_ip: true,
    }
}

#[test]
fn test_new() {
    let args = test_args();

    let nws = args.parse_whitelist_networks().unwrap();
    let ja3s = args.parse_whitelist_ja3();
    let _whitelist = Whitelist::new(nws, ja3s);

    let md = Monitor::new(args, T0);
    assert_eq!(md.args.threshold, 1000);
    assert_eq!(md.args.window, Duration::from_secs(60).as_secs());
}

#[test]
fn test_process_key_new_key() {
    let args = test_args();

    let nws = args.parse_whitelist_networks().unwrap();
    let ja3s = args.parse_whitelist_ja3();
    let _whitelist = Whitelist::new(nws, ja3s);

    let mut md = Monitor::new(args, T0);
    let current_ts = T0;
    md.process_key("testkey", current_ts);
    assert!(md.buckets.contains_key("testkey"));
}

#[test]
fn test_process_key_existing_key() {
    let args = test_args();

    let nws = args.parse_whitelist_networks().unwrap();
    let ja3s = args.parse_whitelist_ja3();
    let _whitelist = Whitelist::new(nws, ja3s);

    let mut md = Monitor::new(args, T0);
    let current_ts = T0;
    md.process_key("testkey", current_ts);
    // simulate some time passage
    let new_ts = current_ts + 30;
    md.process_key("testkey", new_ts);
    match md.buckets.get("testkey") {
        Some(value) => {
            println!("Value for key '{:?}'", value.last_ts);
            assert!(value.last_ts == new_ts);
        }
        None => println!("No value found for key"),
    }
}

#[test]
fn test_cleanup_old_buckets() {
    let args = test_args();

    let nws = args.parse_whitelist_networks().unwrap();
    let ja3s = args.parse_whitelist_ja3();
    let _whitelist = Whitelist::new(nws, ja3s);

    let mut md = Monitor::new(args, T0);
    let current_ts = T0;
    md.process_key("oldkey", current_ts - 500);
    md.process_key("newkey", current_ts);
    md.cleanup_old_buckets(current_ts);
    assert!(!md.buckets.contains_key("oldkey"));
    assert!(md.buckets.contains_key("newkey"));
}

#[test]
fn cleanup_twice_equals_cleanup_once() {
    let args = test_args();
    let mut md = Monitor::new(args, T0);
    md.process_key("oldkey", T0 - 500);
    md.process_key("midkey", T0 - 100);
    md.process_key("newkey", T0);
    md.cleanup_old_buckets(T0);
    let after_once = md.log_current_state();
    let newkey_there = md.buckets.contains_key("newkey");
    md.cleanup_old_buckets(T0);
    assert_eq!(md.log_current_state(), after_once);
    assert_eq!(md.buckets.contains_key("newkey"), newkey_there);
    assert!(md.buckets.contains_key("midkey"));
    assert!(!md.buckets.contains_key("oldkey"));
}

#[test]
fn burst_below_threshold_never_violates() {
    // W = 60, T = 1000: 1000 events over 10 s stay at the threshold
    let mut md = Monitor::new(test_args(), T0);
    for i in 0..1000u64 {
        let ts = T0 + i / 100;
        assert!(!md.process_key("aaaa", ts));
    }
    assert!(md.buckets.contains_key("aaaa"));
}

#[test]
fn burst_crossing_threshold_violates_on_the_last_event() {
    // W = 60, T = 1000: the 1001st event over 10 s trips the threshold
    let mut md = Monitor::new(test_args(), T0);
    let mut violations: u32 = 0;
    let mut last = false;
    for i in 0..1001u64 {
        let ts = T0 + i / 101;
        last = md.process_key("bbbb", ts);
        if last {
            violations += 1;
        }
    }
    assert!(last);
    assert_eq!(violations, 1);
}

#[test]
fn whitelisted_fingerprint_prefix_is_skipped() {
    let mut args = test_args();
    args.whitelist_ja3s = "cafe".to_string();
    let mut md = Monitor::new(args, T0);
    for i in 0..100_000u64 {
        let ts = T0 + i / 10_000;
        assert!(!md.process_key("cafe-1.2.3.4", ts));
    }
    assert!(!md.buckets.contains_key("cafe-1.2.3.4"));
    assert_eq!(md.log_current_state(), 0);
}

#[test]
fn whitelist_matches_prefix_not_whole_key() {
    let mut args = test_args();
    args.whitelist_ja3s = "cafe".to_string();
    let mut md = Monitor::new(args, T0);
    // a key whose prefix before the dash differs is processed
    md.process_key("cafeteria-1.2.3.4", T0);
    assert!(md.buckets.contains_key("cafeteria-1.2.3.4"));
    // without a dash the whole key is the prefix
    md.process_key("cafe", T0);
    assert!(!md.buckets.contains_key("cafe"));
}

#[test]
fn mark_alerted_suppresses_until_window_passes() {
    let mut args = test_args();
    args.threshold = 2;
    let mut md = Monitor::new(args, T0);
    assert!(!md.process_key("k", T0));
    assert!(!md.process_key("k", T0));
    assert!(md.process_key("k", T0));
    md.mark_alerted("k", T0);
    assert!(!md.process_key("k", T0));
    assert!(!md.process_key("k", T0 + 30));
    assert!(!md.process_key("k", T0 + 30));
    assert!(!md.process_key("k", T0 + 30));
    // 61 seconds after the recorded alert the guard opens again
    assert!(md.process_key("k", T0 + 61));
}

#[test]
fn idle_bucket_is_collected_by_periodic_cleanup() {
    let mut md = Monitor::new(test_args(), T0);
    md.process_key("idle", T0);
    // 130 s later another key arrives; the periodic collection is due
    // (2 * W = 120) and the idle bucket is 130 s old
    md.process_key("busy", T0 + 130);
    assert!(!md.buckets.contains_key("idle"));
    assert!(md.buckets.contains_key("busy"));
}

#[test]
fn log_bucket_reports_counts_and_total() {
    let mut md = Monitor::new(test_args(), T0);
    md.process_key("k", T0);
    md.process_key("k", T0);
    md.process_key("k", T0 + 1);
    let (vals, total) = md.log_bucket("k").unwrap();
    assert_eq!(vals, vec![2, 1]);
    assert_eq!(total, 3);
    assert!(md.log_bucket("absent").is_none());
}

#[test]
fn print_stats_reports_rate_once_a_second() {
    let mut md = Monitor::new(test_args(), T0);
    for _ in 0..5 {
        md.process_key("k", T0);
    }
    assert_eq!(md.print_stats(T0), None);
    assert_eq!(md.print_stats(T0 + 1), Some(5));
    assert_eq!(md.print_stats(T0 + 2), Some(0));
}
