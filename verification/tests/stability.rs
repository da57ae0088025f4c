use dex_arbitr::app::stability::{volatility_pct, Action, Stability, StabilityTracker};
use dex_arbitr::clock::{Duration, Instant};
use dex_arbitr::decimal::Decimal;

fn d(text: &str) -> Decimal {
    Decimal::parse(text).unwrap()
}

fn now() -> Instant {
    Instant::from_millis(1_000_000_000)
}

fn win() -> Decimal {
    d("3")
}
fn thr() -> Decimal {
    d("0.05")
}

fn at(base: Instant, ms: u64) -> Instant {
    base.after(Duration::from_millis(ms))
}

#[test]
fn collecting_until_window_covered() {
    let mut t = StabilityTracker::default();
    let t0 = now();
    t.record("s", d("100"), d("100"), t0, win()).unwrap();
    assert_eq!(t.check("s", Action::Open, t0, win(), thr()).unwrap(), Stability::Collecting);

    let mid = at(t0, 2900);
    t.record("s", d("100"), d("100"), mid, win()).unwrap();
    assert_eq!(t.check("s", Action::Open, mid, win(), thr()).unwrap(), Stability::Collecting);
}

#[test]
fn passes_when_stable_over_window() {
    let mut t = StabilityTracker::default();
    let t0 = now();
    for ms in [0, 1000, 2000, 3100] {
        t.record("s", d("100"), d("200"), at(t0, ms), win()).unwrap();
    }
    let now = at(t0, 3100);
    assert_eq!(t.check("s", Action::Open, now, win(), thr()).unwrap(), Stability::Steady);
}

#[test]
fn volatile_resets_history() {
    let mut t = StabilityTracker::default();
    let t0 = now();
    t.record("s", d("100"), d("200"), t0, win()).unwrap();
    t.record("s", d("100"), d("200"), at(t0, 1500), win()).unwrap();
    t.record("s", d("100.1"), d("200"), at(t0, 3100), win()).unwrap();

    let now = at(t0, 3100);
    assert_eq!(t.check("s", Action::Open, now, win(), thr()).unwrap(), Stability::Volatile);
    assert_eq!(t.check("s", Action::Open, now, win(), thr()).unwrap(), Stability::Collecting);
}

#[test]
fn sell_leg_spike_also_fails() {
    let mut t = StabilityTracker::default();
    let t0 = now();
    for ms in [0, 500, 1500, 2500] {
        t.record("s", d("100"), d("200"), at(t0, ms), win()).unwrap();
    }
    t.record("s", d("100"), d("200.5"), at(t0, 3100), win()).unwrap();
    let now = at(t0, 3100);
    assert_eq!(t.check("s", Action::Open, now, win(), thr()).unwrap(), Stability::Volatile);
}

#[test]
fn sparse_sampling_only_judges_in_window() {
    let mut t = StabilityTracker::default();
    let t0 = now();
    t.record("s", d("100"), d("200"), t0, win()).unwrap();
    t.record("s", d("100"), d("200.5"), at(t0, 3100), win()).unwrap();
    let now = at(t0, 3100);
    assert_eq!(t.check("s", Action::Open, now, win(), thr()).unwrap(), Stability::Steady);
}

#[test]
fn zero_config_disables_check() {
    let mut t = StabilityTracker::default();
    let now = now();
    assert_eq!(
        t.check("s", Action::Open, now, Decimal::zero(), thr()).unwrap(),
        Stability::Steady
    );
    assert_eq!(
        t.check("s", Action::Open, now, win(), Decimal::zero()).unwrap(),
        Stability::Steady
    );
}

#[test]
fn actions_track_state_independently() {
    let mut t = StabilityTracker::default();
    let t0 = now();
    for ms in [0, 3100] {
        t.record("s", d("100"), d("200"), at(t0, ms), win()).unwrap();
    }
    let now = at(t0, 3100);
    assert_eq!(t.check("s", Action::Open, now, win(), thr()).unwrap(), Stability::Steady);
    assert!(t.changed("s", Action::Close, Stability::Steady));
    assert!(!t.changed("s", Action::Open, Stability::Steady));
}

#[test]
fn volatility_uses_extremes_not_stddev() {
    let vals = vec![d("100"), d("100"), d("100"), d("101")];
    assert_eq!(volatility_pct(&vals).unwrap(), Decimal::from_int(1));
}

#[test]
fn forget_clears_slot() {
    let mut t = StabilityTracker::default();
    let t0 = now();
    t.record("s", d("100"), d("200"), t0, win()).unwrap();
    t.check("s", Action::Open, t0, win(), thr()).unwrap();
    t.forget("s");
    assert!(t.is_empty());
}

#[test]
fn volatility_is_told() {
    let mut t = StabilityTracker::default();
    assert_eq!(t.volatility("s", now(), win()).unwrap(), None);
    t.record("s", d("100"), d("200"), now(), win()).unwrap();
    t.record("s", d("101"), d("200"), at(now(), 1000), win()).unwrap();
    assert_eq!(t.volatility("s", at(now(), 1000), win()).unwrap(), Some(d("1")));
    assert_eq!(Stability::Collecting.skip_label(), "stability_collecting");
    assert_eq!(Stability::Volatile.skip_label(), "stability_volatile");
    assert_eq!(Stability::Steady.skip_label(), "ok");
}
