use dex_arbitr::app::reduce_only::{is_reduce_only_error, probe_due, ReduceOnlyGuard};
use dex_arbitr::clock::{Duration, Instant};

fn now() -> Instant {
    Instant::from_millis(1_000_000_000)
}

#[test]
fn detects_reference_error_shapes() {
    assert!(is_reduce_only_error("invalid reduce only mode"));
    assert!(is_reduce_only_error(
        "place failed: Invalid Reduce Only Mode"
    ));
    assert!(is_reduce_only_error("rejected code=21740 msg=..."));
    assert!(is_reduce_only_error("{\"code\":21740}"));
    assert!(is_reduce_only_error(
        "Reduce only order would increase position"
    ));
    assert!(!is_reduce_only_error("limit_zero_fill: first leg no fill"));
    assert!(!is_reduce_only_error("insufficient margin"));
    assert!(!is_reduce_only_error("reduce_only: true"));
}

#[test]
fn probe_window_covers_top_of_hour() {
    let hour_start = 1_700_000_000i64 / 3600 * 3600;
    assert!(!probe_due(hour_start, 5, None));
    assert!(probe_due(hour_start + 5, 5, None));
    assert!(probe_due(hour_start + 30, 5, None));
    assert!(probe_due(hour_start + 64, 5, None));
    assert!(!probe_due(hour_start + 65, 5, None));
    assert!(!probe_due(hour_start + 1800, 5, None));
}

#[test]
fn probe_dedupes_within_same_hour() {
    let hour_start = 1_700_000_000i64 / 3600 * 3600;
    let hour = hour_start / 3600;
    assert!(probe_due(hour_start + 5, 5, None));
    assert!(!probe_due(hour_start + 6, 5, Some(hour)));
    assert!(!probe_due(hour_start + 60, 5, Some(hour)));
    assert!(probe_due(hour_start + 3605, 5, Some(hour)));
}

#[test]
fn probe_hour_tracked_per_pair() {
    let mut g = ReduceOnlyGuard::default();
    g.mark("BTC", "sodex", "code=21740", false, now());
    assert_eq!(g.probed_hour("BTC"), None);
    g.mark_probe_hour("BTC", 42);
    assert_eq!(g.probed_hour("BTC"), Some(42));
    g.record_probe("BTC", "sodex", false, now());
    assert!(g.is_blocked("BTC"));
    assert_eq!(g.probed_hour("BTC"), Some(42));
    g.record_probe("BTC", "sodex", true, now());
    assert!(!g.is_blocked("BTC"));
    assert_eq!(g.probed_hour("BTC"), None);
}

#[test]
fn blocks_on_first_error() {
    let mut g = ReduceOnlyGuard::default();
    assert!(!g.is_blocked("BTC"));
    g.mark("BTC", "sodex", "invalid reduce only mode", false, now());
    assert!(g.is_blocked("BTC"));
    assert!(!g.is_closing_blocked("BTC"));
}

#[test]
fn reduce_only_isolates_other_pairs() {
    let mut g = ReduceOnlyGuard::default();
    g.mark("BTC", "sodex", "code=21740", false, now());
    assert!(g.is_blocked("BTC"));
    assert!(!g.is_blocked("ETH"));
}

#[test]
fn closing_blocked_never_downgrades() {
    let mut g = ReduceOnlyGuard::default();
    let t = now();
    g.mark("BTC", "sodex", "e1", true, t);
    assert!(g.is_closing_blocked("BTC"));
    g.mark("BTC", "lighter", "e2", false, t);
    assert!(g.is_closing_blocked("BTC"));
}

#[test]
fn accumulates_without_resetting_clock() {
    let mut g = ReduceOnlyGuard::default();
    let t = now();
    g.mark("BTC", "sodex", "e1", false, t);
    let first = g.state("BTC").unwrap().first_detected;
    g.mark("BTC", "lighter", "e2", false, t.after(Duration::from_secs(30)));
    let st = g.state("BTC").unwrap();
    assert_eq!(st.first_detected, first);
    assert_eq!(st.failed_venues.len(), 2);
    assert_eq!(st.last_error.as_deref(), Some("e2"));
}

#[test]
fn successful_probe_clears() {
    let mut g = ReduceOnlyGuard::default();
    let t = now();
    g.mark("BTC", "sodex", "e", false, t);
    g.record_probe("BTC", "sodex", true, t);
    assert!(!g.is_blocked("BTC"));
    assert!(g.is_empty());
}

#[test]
fn failed_probe_keeps_block() {
    let mut g = ReduceOnlyGuard::default();
    let t = now();
    g.mark("BTC", "sodex", "e", false, t);
    g.record_probe("BTC", "sodex", false, t);
    assert!(g.is_blocked("BTC"));
    assert!(g.state("BTC").unwrap().last_probe.is_some());
}

#[test]
fn probe_on_unblocked_pair_is_noop() {
    let mut g = ReduceOnlyGuard::default();
    g.record_probe("BTC", "sodex", false, now());
    assert!(g.is_empty());
}

#[test]
fn blocked_pairs_come_in_order() {
    let mut g = ReduceOnlyGuard::default();
    g.mark("ETH-USD-PERP", "sodex", "x", true, now());
    g.mark("BTC-USD-PERP", "sodex", "x", true, now());
    assert_eq!(g.blocked_pairs(), vec!["BTC-USD-PERP", "ETH-USD-PERP"]);
}
