use dex_arbitr::app::sizing::{check_capacity, LegMargin};
use dex_arbitr::clock::Instant;
use dex_arbitr::config::SizingConfig;
use dex_arbitr::decimal::Decimal;
use dex_arbitr::domain::Bbo;
use dex_arbitr::keymap::KeyMap;

fn d(text: &str) -> Decimal {
    Decimal::parse(text).unwrap()
}

fn now() -> Instant {
    Instant::from_millis(1_000_000_000)
}

fn cfg() -> SizingConfig {
    SizingConfig {
        leverage_multiplier: d("5"),
        depth_pct: d("50"),
        refresh_balance_secs: 60,
        fallback_available_usdc: None,
        margin_utilization_pct: d("100"),
        balance_floor_usdc: Decimal::zero(),
        leverage_by_venue: KeyMap::new(),
    }
}

fn book(bid: Decimal, ask: Decimal, qty: Decimal) -> Bbo {
    Bbo {
        bid,
        ask,
        bid_qty: qty,
        ask_qty: qty,
        bids: vec![(bid, qty)],
        asks: vec![(ask, qty)],
        ts: now(),
    }
}

fn margin(avail: Decimal, reserved: Decimal) -> LegMargin {
    LegMargin {
        available_usdc: avail,
        leverage: d("2"),
        reserved_usdc: reserved,
    }
}

#[test]
fn ok_when_both_legs_cover_notional() {
    let b = book(d("100000"), d("100000"), d("10"));
    assert!(check_capacity(
        &cfg(),
        d("0.001"),
        margin(d("200"), d("0")),
        margin(d("200"), d("0")),
        &b,
        &b,
        d("100000"),
    ).unwrap()
    .is_ok());
}

#[test]
fn no_margin_when_short_leg_cannot_cover() {
    let b = book(d("100000"), d("100000"), d("10"));
    assert_eq!(
        check_capacity(
            &cfg(),
            d("0.001"),
            margin(d("200"), d("0")),
            margin(d("20"), d("0")),
            &b,
            &b,
            d("100000"),
        ).unwrap(),
        Err("no_margin")
    );
}

#[test]
fn reserved_margin_reduces_free_notional() {
    let b = book(d("100000"), d("100000"), d("10"));
    assert_eq!(
        check_capacity(
            &cfg(),
            d("0.001"),
            margin(d("200"), d("0")),
            margin(d("100"), d("80")),
            &b,
            &b,
            d("100000"),
        ).unwrap(),
        Err("no_margin")
    );
}

#[test]
fn thin_book_when_add_qty_exceeds_depth_pct() {
    let b = book(d("100"), d("100"), d("0.001"));
    assert_eq!(
        check_capacity(
            &cfg(),
            d("0.001"),
            margin(d("10000"), d("0")),
            margin(d("10000"), d("0")),
            &b,
            &b,
            d("100"),
        ).unwrap(),
        Err("thin_book")
    );
}

#[test]
fn depth_pct_zero_skips_depth_check() {
    let mut c = cfg();
    c.depth_pct = Decimal::zero();
    let b = book(d("100"), d("100"), d("0.0001"));
    assert!(check_capacity(
        &c,
        d("0.001"),
        margin(d("10000"), d("0")),
        margin(d("10000"), d("0")),
        &b,
        &b,
        d("100"),
    ).unwrap()
    .is_ok());
}

#[test]
fn no_mid_when_price_invalid() {
    let b = book(d("100"), d("100"), d("10"));
    assert_eq!(
        check_capacity(
            &cfg(),
            d("0.001"),
            margin(d("200"), d("0")),
            margin(d("200"), d("0")),
            &b,
            &b,
            Decimal::zero(),
        ).unwrap(),
        Err("no_mid")
    );
}

#[test]
fn no_size_when_qty_zero() {
    let b = book(d("100"), d("100"), d("10"));
    assert_eq!(
        check_capacity(
            &cfg(),
            Decimal::zero(),
            margin(d("200"), d("0")),
            margin(d("200"), d("0")),
            &b,
            &b,
            d("100"),
        ).unwrap(),
        Err("no_size")
    );
}
