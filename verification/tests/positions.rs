use dex_arbitr::app::positions::PositionStore;
use dex_arbitr::clock::Instant;
use dex_arbitr::config::{default_sizing, SizingConfig};
use dex_arbitr::decimal::Decimal;
use dex_arbitr::domain::VenueId;

fn d(text: &str) -> Decimal {
    Decimal::parse(text).unwrap()
}

fn now() -> Instant {
    Instant::from_millis(1_000_000_000)
}

fn sizing() -> SizingConfig {
    let mut c = default_sizing();
    c.leverage_multiplier = d("2");
    c
}

const BTC_LS: &str = "BTC-USD-PERP|lighter|sodex";
const BTC_LR: &str = "BTC-USD-PERP|lighter|lighter_rh";

fn open(store: &mut PositionStore, slot: &str, qty: Decimal, notional: Decimal, net: Decimal) {
    store.record_open(
        slot,
        "BTC-USD-PERP",
        VenueId::named("lighter"),
        VenueId::named("sodex"),
        qty,
        1,
        notional,
        net,
        net,
        Decimal::zero(),
        Decimal::zero(),
        Decimal::zero(),
        now(),
    )
    .unwrap();
}

#[test]
fn slot_limit_counts_open_and_pending() {
    let mut store = PositionStore::default();
    assert!(store.can_open(1));
    store.reserve_open(BTC_LS);
    assert!(!store.can_open(1));
    open(&mut store, BTC_LS, d("0.001"), d("100"), d("0.05"));
    assert!(!store.can_open(1));
    assert_eq!(store.active_slots(), 1);
    assert!(store.can_open(2));
}

#[test]
fn topping_up_existing_slot_does_not_consume_another() {
    let mut store = PositionStore::default();
    open(&mut store, BTC_LS, d("0.001"), d("100"), d("0.05"));
    store.reserve_open(BTC_LS);
    assert_eq!(store.active_slots(), 1);
    assert!(!store.can_open(1));
    assert!(store.can_open(2));
}

#[test]
fn same_pair_different_venue_combo_is_separate() {
    let mut store = PositionStore::default();
    open(&mut store, BTC_LS, d("0.001"), d("100"), d("0.05"));
    assert!(store.get(BTC_LR).is_none());
    assert_eq!(store.get(BTC_LS).unwrap().qty, d("0.001"));
    assert_eq!(store.open_count(), 1);
}

#[test]
fn reserved_margin_per_venue() {
    let mut store = PositionStore::default();
    open(&mut store, BTC_LS, d("0.01"), d("400"), d("0.05"));
    let reserved = store.reserved_margin_by_venue(&sizing()).unwrap();
    assert_eq!(reserved.get("lighter"), Some(&d("200")));
    assert_eq!(reserved.get("sodex"), Some(&d("200")));
}

#[test]
fn partial_close_scales_notional() {
    let mut store = PositionStore::default();
    open(&mut store, BTC_LS, d("0.01"), d("400"), d("0.05"));
    store.record_close(BTC_LS, d("0.0075")).unwrap();
    let pos = store.get(BTC_LS).unwrap();
    assert_eq!(pos.qty, d("0.0025"));
    assert_eq!(pos.entry_notional_usdc, d("100"));
}

#[test]
fn add_on_averages_entry_net() {
    let mut store = PositionStore::default();
    open(&mut store, BTC_LS, d("0.001"), d("100"), d("0.06"));
    open(&mut store, BTC_LS, d("0.001"), d("100"), d("0.04"));
    let pos = store.get(BTC_LS).unwrap();
    assert_eq!(pos.qty, d("0.002"));
    assert_eq!(pos.entry_net_pct, d("0.05"));
    assert_eq!(pos.entry_raw_pct, d("0.05"));
}

#[test]
fn reconcile_shrinks_to_exchange_qty() {
    let mut store = PositionStore::default();
    open(&mut store, BTC_LS, d("0.01"), d("400"), d("0.05"));
    assert_eq!(
        store.reconcile_qty(BTC_LS, d("0.004")).unwrap(),
        Some((d("0.01"), d("0.004")))
    );
    assert_eq!(store.get(BTC_LS).unwrap().qty, d("0.004"));
    assert_eq!(store.reconcile_qty(BTC_LS, d("0.02")).unwrap(), None);
}

#[test]
fn held_values_add_up() {
    let mut store = PositionStore::default();
    open(&mut store, BTC_LS, d("0.001"), d("100"), d("0.05"));
    open(&mut store, BTC_LR, d("0.001"), d("40"), d("0.05"));
    assert_eq!(store.held_notional_for_pair("BTC-USD-PERP").unwrap(), d("140"));
    assert_eq!(store.held_notional_for_pair("ETH-USD-PERP").unwrap(), d("0"));
    assert_eq!(store.held_notional_total().unwrap(), d("140"));
}
