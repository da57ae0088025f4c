use dex_arbitr::clock::Instant;
use dex_arbitr::decimal::Decimal;
use dex_arbitr::domain::spread::{best_open_spread, net_spread, raw_spread_pct};
use dex_arbitr::domain::{Bbo, VenueId};

fn d(text: &str) -> Decimal {
    Decimal::parse(text).unwrap()
}

fn now() -> Instant {
    Instant::from_millis(1_000_000_000)
}

fn book(bid: Decimal, ask: Decimal) -> Bbo {
    Bbo {
        bid,
        ask,
        bid_qty: d("1"),
        ask_qty: d("1"),
        bids: vec![(bid, d("1"))],
        asks: vec![(ask, d("1"))],
        ts: now(),
    }
}

#[test]
fn uses_ask_bid_not_mid() {
    let pct = raw_spread_pct(d("100"), d("100.05")).unwrap().unwrap();
    assert_eq!(pct, d("0.05"));
}

#[test]
fn subtracts_fee_and_slip() {
    let buy = book(d("99"), d("100"));
    let sell = book(d("100.10"), d("100.20"));
    let net = net_spread(
        VenueId::named("a"),
        VenueId::named("b"),
        &buy,
        &sell,
        d("0.02"),
        d("0.01"),
    ).unwrap()
    .unwrap();
    assert_eq!(net.raw_pct, d("0.10"));
    assert_eq!(net.net_pct, d("0.07"));
}

#[test]
fn picks_better_direction() {
    let cheap = book(d("100"), d("100.01"));
    let rich = book(d("100.08"), d("100.09"));
    let best = best_open_spread(
        &VenueId::named("lighter"),
        &VenueId::named("lighter_rh"),
        &cheap,
        &rich,
        d("0"),
        d("0"),
        d("0.001"),
        d("0"),
        true,
    ).unwrap()
    .unwrap();
    assert_eq!(best.buy.as_str(), "lighter");
    assert_eq!(best.sell.as_str(), "lighter_rh");
    assert!(best.net_pct > d("0"));
    assert_eq!(best.slip_pct, d("0"));
}

#[test]
fn book_walk_slip_enters_net() {
    let cheap = Bbo {
        bid: d("99"),
        ask: d("100"),
        bid_qty: d("1"),
        ask_qty: d("0.0004"),
        bids: vec![(d("99"), d("1"))],
        asks: vec![(d("100"), d("0.0004")), (d("100.2"), d("1"))],
        ts: now(),
    };
    let rich = Bbo {
        bid: d("100.10"),
        ask: d("100.20"),
        bid_qty: d("1"),
        ask_qty: d("1"),
        bids: vec![(d("100.10"), d("1"))],
        asks: vec![(d("100.20"), d("1"))],
        ts: now(),
    };
    let best = best_open_spread(
        &VenueId::named("cheap"),
        &VenueId::named("rich"),
        &cheap,
        &rich,
        d("0"),
        d("0"),
        d("0.001"),
        d("1"),
        true,
    ).unwrap()
    .unwrap();
    assert_eq!(best.buy.as_str(), "cheap");
    assert_eq!(best.slip_pct, d("0.12"));
    assert_eq!(best.raw_pct, d("0.10"));
    assert_eq!(best.net_pct, d("-0.02"));
}
