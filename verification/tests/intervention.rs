use dex_arbitr::app::intervention::{
    Cause, Gate, InterventionGuard, AUTO_RESUME, SINGLE_LEG_STREAK_LIMIT,
};
use dex_arbitr::clock::{Duration, Instant};

fn now() -> Instant {
    Instant::from_millis(1_000_000_000)
}

fn auto_resume() -> Duration {
    Duration { nanos: AUTO_RESUME }
}

fn g() -> InterventionGuard {
    InterventionGuard::default()
}

#[test]
fn blocks_both_directions() {
    let mut gd = g();
    let t = now();
    assert!(!gd.should_block("BTC", Some(1), t).blocked());
    gd.mark("BTC", Cause::NakedLegUnrecoverable, "sodex leg 0.5", Some(1), t);
    assert!(gd.should_block("BTC", Some(1), t).blocked());
    assert!(gd.should_block("BTC", Some(1), t).blocked());
}

#[test]
fn intervention_isolates_other_pairs() {
    let mut gd = g();
    let t = now();
    gd.mark("BTC", Cause::OrphanOrder, "id=1", Some(1), t);
    assert!(gd.should_block("BTC", Some(1), t).blocked());
    assert!(!gd.should_block("ETH", Some(1), t).blocked());
}

#[test]
fn auto_resumes_after_timeout() {
    let mut gd = g();
    let t = now();
    gd.mark("BTC", Cause::EmergencyCloseFailed, "d", Some(2), t);
    assert!(gd.should_block("BTC", Some(2), t.after(Duration::from_secs(1799))).blocked());
    let gate = gd.should_block("BTC", Some(2), t.after(auto_resume()));
    assert!(matches!(gate, Gate::Resumed(_)));
    assert!(!gd.is_waiting("BTC"));
    assert!(!gd.should_block("BTC", Some(2), t.after(auto_resume())).blocked());
}

#[test]
fn auto_resumes_on_grid_change() {
    let mut gd = g();
    let t = now();
    gd.mark("BTC", Cause::OrphanOrder, "d", Some(1), t);
    assert!(gd.should_block("BTC", Some(1), t).blocked());
    let gate = gd.should_block("BTC", Some(3), t);
    assert!(matches!(gate, Gate::Resumed(_)));
    assert!(!gd.is_waiting("BTC"));
}

#[test]
fn unknown_grid_does_not_resume() {
    let mut gd = g();
    let t = now();
    gd.mark("BTC", Cause::OrphanOrder, "d", Some(1), t);
    assert!(gd.should_block("BTC", None, t).blocked());
    let mut gd2 = g();
    gd2.mark("ETH", Cause::OrphanOrder, "d", None, t);
    assert!(gd2.should_block("ETH", Some(5), t).blocked());
}

#[test]
fn repeated_marks_do_not_extend_the_wait() {
    let mut gd = g();
    let t = now();
    assert!(gd.mark("BTC", Cause::OrphanOrder, "first", Some(1), t));
    let later = t.after(Duration::from_secs(1740));
    assert!(!gd.mark("BTC", Cause::NakedLegUnrecoverable, "second", Some(1), later));
    let st = gd.state("BTC").unwrap();
    assert_eq!(st.since, t, "since must not be pushed forward");
    assert_eq!(st.cause, Cause::NakedLegUnrecoverable);
    assert_eq!(st.detail, "second");
    assert!(matches!(
        gd.should_block("BTC", Some(1), t.after(auto_resume())),
        Gate::Resumed(_)
    ));
}

#[test]
fn single_leg_streak_reaches_limit() {
    let mut gd = g();
    assert_eq!(gd.note_single_leg("BTC"), 1);
    assert_eq!(gd.note_single_leg("BTC"), 2);
    assert_eq!(gd.note_single_leg("BTC"), SINGLE_LEG_STREAK_LIMIT);
    gd.clear_streak("BTC");
    assert_eq!(gd.streak("BTC"), 0);
}

#[test]
fn streak_is_per_pair() {
    let mut gd = g();
    gd.note_single_leg("BTC");
    gd.note_single_leg("BTC");
    assert_eq!(gd.streak("BTC"), 2);
    assert_eq!(gd.streak("ETH"), 0);
}

#[test]
fn manual_resume_clears_streak() {
    let mut gd = g();
    let t = now();
    gd.note_single_leg("BTC");
    gd.note_single_leg("BTC");
    gd.mark("BTC", Cause::SingleLegStreak, "3x", Some(1), t);
    assert!(gd.resume("BTC"));
    assert_eq!(gd.streak("BTC"), 0);
    assert!(!gd.is_waiting("BTC"));
    assert!(!gd.resume("BTC"));
}

#[test]
fn waiting_pairs_sorted() {
    let mut gd = g();
    let t = now();
    gd.mark("SOL", Cause::OrphanOrder, "d", None, t);
    gd.mark("BTC", Cause::OrphanOrder, "d", None, t);
    assert_eq!(gd.waiting_pairs(), vec!["BTC", "SOL"]);
    assert!(!gd.is_empty());
}
