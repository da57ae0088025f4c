use dex_arbitr::clock::{Duration, Instant};
use dex_arbitr::decimal::Decimal;
use dex_arbitr::domain::{Intent, VenueId, WindowGridEngine, WindowGridParams};

fn d(text: &str) -> Decimal {
    Decimal::parse(text).unwrap()
}

fn now() -> Instant {
    Instant::from_millis(1_000_000_000)
}

const SLOT: &str = "BTC-USD-PERP|lighter|entropy";

fn params() -> WindowGridParams {
    WindowGridParams {
        step: d("0.5"),
        max_step: 3,
        hysteresis: d("0.25"),
        persistence: Duration::from_millis(0),
        persistence_min_hits: 0,
        base_qty: d("0.001"),
        split_order_size: Decimal::zero(),
        min_qty: Decimal::zero(),
    }
}

fn left() -> VenueId {
    VenueId::named("lighter")
}
fn right() -> VenueId {
    VenueId::named("entropy")
}

fn decide(
    eng: &mut WindowGridEngine,
    k: i32,
    s_plus: Decimal,
    s_minus: Decimal,
    held: Decimal,
    now: Instant,
) -> Intent {
    eng.decide(
        SLOT,
        k,
        s_plus,
        s_minus,
        Decimal::zero(),
        &left(),
        &right(),
        held,
        &params(),
        now,
    )
    .unwrap()
}

#[test]
fn empty_below_075_delta_holds() {
    let mut eng = WindowGridEngine::new();
    let t = now();
    assert!(matches!(
        decide(&mut eng, 0, d("0.37"), d("0.37"), Decimal::zero(), t),
        Intent::Hold
    ));
}

#[test]
fn empty_at_075_delta_opens_plus_one() {
    let mut eng = WindowGridEngine::new();
    let t = now();
    match decide(&mut eng, 0, d("0.375"), d("0"), Decimal::zero(), t) {
        Intent::Open {
            qty,
            buy,
            sell,
            grid,
        } => {
            assert_eq!(qty, d("0.001"));
            assert_eq!(buy, right());
            assert_eq!(sell, left());
            assert_eq!(grid, 1);
        }
        other => panic!("{other:?}"),
    }
}

#[test]
fn empty_negative_opens_minus_one() {
    let mut eng = WindowGridEngine::new();
    let t = now();
    match decide(&mut eng, 0, d("0"), d("-0.375"), Decimal::zero(), t) {
        Intent::Open {
            qty,
            buy,
            sell,
            grid,
        } => {
            assert_eq!(qty, d("0.001"));
            assert_eq!(buy, left());
            assert_eq!(sell, right());
            assert_eq!(grid, -1);
        }
        other => panic!("{other:?}"),
    }
}

#[test]
fn add_one_at_a_time_no_skip() {
    let mut eng = WindowGridEngine::new();
    let t = now();
    match decide(&mut eng, 0, d("1.5"), d("1.6"), Decimal::zero(), t) {
        Intent::Open { grid, .. } => assert_eq!(grid, 1),
        other => panic!("{other:?}"),
    }
    match decide(&mut eng, 1, d("1.5"), d("1.6"), d("0.001"), t) {
        Intent::Open { grid, .. } => assert_eq!(grid, 2),
        other => panic!("{other:?}"),
    }
    match decide(&mut eng, 2, d("1.5"), d("1.6"), d("0.002"), t) {
        Intent::Open { grid, .. } => assert_eq!(grid, 3),
        other => panic!("{other:?}"),
    }
    assert!(matches!(
        decide(&mut eng, 3, d("1.5"), d("1.6"), d("0.003"), t),
        Intent::Hold
    ));
}

#[test]
fn reduce_positive_step_one_at_a_time() {
    let mut eng = WindowGridEngine::new();
    let t = now();
    match decide(&mut eng, 3, d("0"), d("0"), d("0.003"), t) {
        Intent::Close { grid, qty, .. } => {
            assert_eq!(grid, 2);
            assert_eq!(qty, d("0.001"));
        }
        other => panic!("{other:?}"),
    }
    match decide(&mut eng, 1, d("0"), d("0"), d("0.001"), t) {
        Intent::Close { grid, qty, .. } => {
            assert_eq!(grid, 0);
            assert_eq!(qty, d("0.001"));
        }
        other => panic!("{other:?}"),
    }
}

#[test]
fn cannot_cross_zero_in_one_tick() {
    let mut eng = WindowGridEngine::new();
    let t = now();
    match decide(&mut eng, -1, d("2"), d("0"), d("0.001"), t) {
        Intent::Close { grid, .. } => assert_eq!(grid, 0),
        other => panic!("{other:?}"),
    }
}

#[test]
fn hysteresis_avoids_churn_near_boundary() {
    let mut eng = WindowGridEngine::new();
    let t = now();
    assert!(matches!(
        decide(&mut eng, 1, d("0.5"), d("0.5"), d("0.001"), t),
        Intent::Hold
    ));
}

#[test]
fn hits_need_several_crosses() {
    let mut p = params();
    p.persistence = Duration::from_millis(1000);
    p.persistence_min_hits = 5;
    let mut eng = WindowGridEngine::new();
    let t0 = now();
    for i in 0..4 {
        let intent = eng.decide(
            SLOT,
            0,
            d("0.375"),
            d("0"),
            Decimal::zero(),
            &left(),
            &right(),
            Decimal::zero(),
            &p,
            t0.after(Duration::from_millis(i * 100)),
        )
    .unwrap();
        assert!(matches!(intent, Intent::Hold), "hit {}", i + 1);
    }
    let intent = eng.decide(
        SLOT,
        0,
        d("0.375"),
        d("0"),
        Decimal::zero(),
        &left(),
        &right(),
        Decimal::zero(),
        &p,
        t0.after(Duration::from_millis(400)),
    )
    .unwrap();
    assert!(matches!(intent, Intent::Open { grid: 1, .. }));
}

#[test]
fn miss_does_not_clear_hit_window() {
    let mut p = params();
    p.persistence = Duration::from_millis(1000);
    p.persistence_min_hits = 3;
    let mut eng = WindowGridEngine::new();
    let t0 = now();
    let _ = eng.decide(
        SLOT,
        0,
        d("0.375"),
        d("0"),
        Decimal::zero(),
        &left(),
        &right(),
        Decimal::zero(),
        &p,
        t0,
    )
    .unwrap();
    let _ = eng.decide(
        SLOT,
        0,
        d("0"),
        d("0"),
        Decimal::zero(),
        &left(),
        &right(),
        Decimal::zero(),
        &p,
        t0.after(Duration::from_millis(100)),
    )
    .unwrap();
    let _ = eng.decide(
        SLOT,
        0,
        d("0.375"),
        d("0"),
        Decimal::zero(),
        &left(),
        &right(),
        Decimal::zero(),
        &p,
        t0.after(Duration::from_millis(200)),
    )
    .unwrap();
    let intent = eng.decide(
        SLOT,
        0,
        d("0.375"),
        d("0"),
        Decimal::zero(),
        &left(),
        &right(),
        Decimal::zero(),
        &p,
        t0.after(Duration::from_millis(300)),
    )
    .unwrap();
    assert!(matches!(intent, Intent::Open { grid: 1, .. }));
}

#[test]
fn forget_resets_hits() {
    let mut p = params();
    p.persistence = Duration::from_millis(1000);
    p.persistence_min_hits = 2;
    let mut eng = WindowGridEngine::new();
    let t0 = now();
    let _ = eng.decide(
        SLOT,
        0,
        d("0.375"),
        d("0"),
        Decimal::zero(),
        &left(),
        &right(),
        Decimal::zero(),
        &p,
        t0,
    )
    .unwrap();
    eng.forget(SLOT);
    let intent = eng.decide(
        SLOT,
        0,
        d("0.375"),
        d("0"),
        Decimal::zero(),
        &left(),
        &right(),
        Decimal::zero(),
        &p,
        t0.after(Duration::from_millis(100)),
    )
    .unwrap();
    assert!(matches!(intent, Intent::Hold));
}

#[test]
fn cap_still_allows_reduce() {
    let mut eng = WindowGridEngine::new();
    let t = now();
    assert!(matches!(
        decide(&mut eng, 3, d("10"), d("10"), d("0.003"), t),
        Intent::Hold
    ));
    match decide(&mut eng, 3, d("10"), d("0"), d("0.003"), t) {
        Intent::Close { grid, .. } => assert_eq!(grid, 2),
        other => panic!("{other:?}"),
    }
}
