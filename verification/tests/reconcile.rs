use dex_arbitr::app::balance::{
    VenueAccountCache, VenueAccountSnapshot, VenueExchangePosition,
};
use dex_arbitr::app::reconcile::{
    audit_position_qty, counterparty_hedge_is_buy, detect_naked_exposures,
    exchange_opposite_hedge, first_leg_fill_delta, hedge_grid_step,
};
use dex_arbitr::clock::Instant;
use dex_arbitr::decimal::Decimal;
use dex_arbitr::domain::{Pair, VenueId, VenueMarket};

fn d(text: &str) -> Decimal {
    Decimal::parse(text).unwrap()
}

fn now() -> Instant {
    Instant::from_millis(1_000_000_000)
}

fn mkt(venue: &str) -> VenueMarket {
    VenueMarket {
        venue: VenueId::named(venue),
        raw_symbol: "MON".into(),
        pair_id: "MON-USD-PERP".into(),
        base: "MON".into(),
        market_index: 1,
        qty_precision: 0,
        min_qty: d("1"),
        volume_24h_usdc: None,
    }
}

fn pair(a: &str, b: &str) -> Pair {
    Pair {
        pair_id: "MON-USD-PERP".into(),
        legs: [mkt(a), mkt(b)],
    }
}

fn snap(venue: &str, qty: Option<Decimal>, fresh: bool) -> VenueAccountSnapshot {
    VenueAccountSnapshot {
        venue: venue.into(),
        available: d("100"),
        total: d("100"),
        positions: qty
            .map(|q| {
                vec![VenueExchangePosition {
                    symbol: "MON".into(),
                    qty: q,
                    entry_price: None,
                    realized_pnl: None,
                }]
            })
            .unwrap_or_default(),
        fresh,
    }
}

fn cache(venues: Vec<VenueAccountSnapshot>) -> VenueAccountCache {
    VenueAccountCache {
        venues,
        last_refresh: now(),
    }
}

#[test]
fn detects_single_venue_long() {
    let accounts = cache(vec![
        snap("sodex", Some(d("676")), true),
        snap("lighter", None, true),
        snap("lighter_rh", None, true),
    ]);
    let naked = detect_naked_exposures(&[pair("sodex", "lighter")], &accounts).unwrap();
    assert_eq!(naked.len(), 1);
    assert_eq!(naked[0].venue, "sodex");
    assert_eq!(naked[0].qty, d("676"));
    assert_eq!(naked[0].counterparty, "lighter");
}

#[test]
fn one_exposure_per_pair_id_across_venue_combos() {
    let accounts = cache(vec![
        snap("sodex", Some(d("676")), true),
        snap("lighter", None, true),
        snap("lighter_rh", None, true),
    ]);
    let pairs = [
        pair("lighter", "lighter_rh"),
        pair("lighter", "sodex"),
        pair("lighter_rh", "sodex"),
    ];
    let naked = detect_naked_exposures(&pairs, &accounts).unwrap();
    assert_eq!(naked.len(), 1);
    assert_eq!(naked[0].venue, "sodex");
}

#[test]
fn hedged_pair_is_not_naked() {
    let accounts = cache(vec![
        snap("sodex", Some(d("676")), true),
        snap("lighter", Some(d("-676")), true),
    ]);
    assert!(detect_naked_exposures(&[pair("sodex", "lighter")], &accounts).unwrap().is_empty());
}

#[test]
fn stale_snapshot_reports_nothing() {
    let accounts = cache(vec![
        snap("sodex", Some(d("676")), true),
        snap("lighter", None, false),
    ]);
    assert!(detect_naked_exposures(&[pair("sodex", "lighter")], &accounts).unwrap().is_empty());
}

#[test]
fn audit_flags_memory_over_exchange() {
    let accounts = cache(vec![
        snap("sodex", Some(d("600")), true),
        snap("lighter", Some(d("-600")), true),
    ]);
    let p = pair("sodex", "lighter");
    assert_eq!(audit_position_qty(&p, &accounts, d("676")).unwrap(), Some((d("676"), d("600"))));
    assert_eq!(audit_position_qty(&p, &accounts, d("600")).unwrap(), None);
}

#[test]
fn audit_flags_memory_under_exchange() {
    let accounts = cache(vec![
        snap("sodex", Some(d("45")), true),
        snap("lighter", Some(d("-45")), true),
    ]);
    let p = pair("sodex", "lighter");
    assert_eq!(
        audit_position_qty(&p, &accounts, d("30")).unwrap(),
        Some((d("30"), d("45")))
    );
}

#[test]
fn audit_same_direction_is_zero_hedge() {
    let accounts = cache(vec![
        snap("sodex", Some(d("10")), true),
        snap("lighter", Some(d("5")), true),
    ]);
    let p = pair("sodex", "lighter");
    assert_eq!(
        audit_position_qty(&p, &accounts, d("5")).unwrap(),
        Some((d("5"), Decimal::zero()))
    );
}

#[test]
fn audit_skips_one_legged_snapshot() {
    let accounts = cache(vec![
        snap("sodex", Some(d("0.0005")), true),
        snap("lighter", None, true),
    ]);
    let p = pair("sodex", "lighter");
    assert_eq!(audit_position_qty(&p, &accounts, d("0.0005")).unwrap(), None);
}

#[test]
fn opposite_hedge_uses_overlap() {
    let accounts = cache(vec![
        snap("lighter", Some(d("0.0005")), true),
        snap("lighter_rh", Some(d("-0.00056")), true),
    ]);
    let p = pair("lighter", "lighter_rh");
    let h = exchange_opposite_hedge(&p, &accounts).unwrap().unwrap();
    assert_eq!(h.qty, d("0.0005"));
    assert_eq!(h.buy, "lighter");
    assert_eq!(h.sell, "lighter_rh");
    assert_eq!(hedge_grid_step(h.qty, d("0.0005"), 3, false).unwrap(), -1);
}

#[test]
fn fill_delta_detects_both_sides() {
    assert_eq!(
        first_leg_fill_delta(d("0"), d("32.43"), true, d("32.43"), d("1")).unwrap(),
        Some(d("32.43"))
    );
    assert_eq!(
        first_leg_fill_delta(d("0"), d("-0.5"), false, d("0.5"), d("0.01")).unwrap(),
        Some(d("0.5"))
    );
    assert_eq!(
        first_leg_fill_delta(d("5"), d("5"), true, d("1"), Decimal::zero()).unwrap(),
        None
    );
}

#[test]
fn hedge_direction_for_long() {
    assert!(!counterparty_hedge_is_buy(d("676")));
    assert!(counterparty_hedge_is_buy(d("-676")));
}
