use susspekt::args::AppArgs;
use susspekt::monitor::Monitor;
use susspekt::poster::HttpPoster;

const T0: u64 = 1_700_000_000;

fn alert_args(dry_run: bool) -> AppArgs {
    AppArgs {
        interface: Some("Foo".to_string()),
        file: None,
        threshold: 1000,
        window: 60,
        alert_url: "http://localhost:8080/api/block/update".to_string(),
        dry_run,
        block_seconds: 86400,
        whitelist_networks: "10.0.0.0/8, 192.168.0.0/16".to_string(),
        whitelist_ja3s: "None".to_string(),
        log_create_buckets: Some(false),
        agg_ip: true,
    }
}

#[test]
fn fresh_alert_carries_payload_fields() {
    let mut poster = HttpPoster::new(alert_args(false), T0);
    let payload = poster.alert("bbbb", T0 + 9).expect("fresh alert must post");
    assert_eq!(payload.key, "bbbb");
    assert_eq!(payload.block_time, 86400);
    assert!(!payload.realert);
}

#[test]
fn accepted_alert_suppresses_within_window() {
    let mut poster = HttpPoster::new(alert_args(false), T0);
    let payload = poster.alert("bbbb", T0 + 9);
    assert!(payload.is_some());
    poster.record_success("bbbb", T0 + 9);
    // a storm of further violations inside the next 30 s posts nothing
    for i in 0..2000u64 {
        let ts = T0 + 10 + i / 67;
        assert!(poster.alert("bbbb", ts).is_none());
    }
}

#[test]
fn transport_failure_leaves_ledger_unchanged_and_retries() {
    let mut poster = HttpPoster::new(alert_args(false), T0);
    let first = poster.alert("bbbb", T0 + 9);
    assert!(first.is_some());
    // the post failed, so record_success is never called: the next
    // violation retries as a fresh alert
    let second = poster.alert("bbbb", T0 + 10).expect("retry must post");
    assert!(!second.realert);
}

#[test]
fn realert_after_two_windows_is_marked() {
    let mut poster = HttpPoster::new(alert_args(false), T0);
    let first = poster.alert("bbbb", T0 + 9).expect("fresh alert must post");
    assert!(!first.realert);
    poster.record_success("bbbb", T0 + 9);
    // exactly two windows of silence later the key trips again
    let again = poster.alert("bbbb", T0 + 129).expect("re-alert must post");
    assert!(again.realert);
}

#[test]
fn stale_ledger_entry_is_evicted_and_key_alerts_fresh() {
    let mut poster = HttpPoster::new(alert_args(false), T0);
    poster.alert("bbbb", T0 + 9);
    poster.record_success("bbbb", T0 + 9);
    // 131 s later the entry is older than two windows and leaves during
    // the collection, so the alert counts as fresh again
    let again = poster.alert("bbbb", T0 + 140).expect("alert must post");
    assert!(!again.realert);
    assert!(!poster.alerts.contains_key("bbbb"));
}

#[test]
fn test_dryrun() {
    let mut poster = HttpPoster::new(alert_args(true), T0);
    // in dry-run nothing is handed to the transport ...
    assert!(poster.alert("test_key", T0 + 9).is_none());
    // ... but the ledger still records the send time, so the dedup
    // behaviour matches a real post
    assert!(poster.alerts.contains_key("test_key"));
    assert!(poster.alert("test_key", T0 + 20).is_none());
}

#[test]
fn dry_run_pipeline_still_deduplicates() {
    let mut md = Monitor::new(alert_args(true), T0);
    let mut poster = HttpPoster::new(alert_args(true), T0);
    let mut posted: u32 = 0;
    for i in 0..1001u64 {
        let ts = T0 + i / 101;
        if md.process_key("bbbb", ts) {
            if poster.alert("bbbb", ts).is_some() {
                posted += 1;
            }
        }
    }
    assert_eq!(posted, 0);
    assert!(poster.alerts.contains_key("bbbb"));
    // later crossings within the window stay suppressed by the ledger
    for i in 0..2000u64 {
        let ts = T0 + 10 + i / 67;
        if md.process_key("bbbb", ts) {
            assert!(poster.alert("bbbb", ts).is_none());
        }
    }
}

#[test]
fn ledger_gc_runs_only_every_two_windows() {
    let mut poster = HttpPoster::new(alert_args(false), T0);
    poster.alert("k1", T0);
    poster.record_success("k1", T0);
    // 100 s later no collection is due (2 * W = 120), the entry stays
    // even though it is older than one window, so the post is a re-alert
    let again = poster.alert("k1", T0 + 100).expect("re-alert must post");
    assert!(again.realert);
}
