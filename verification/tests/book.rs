use dex_arbitr::clock::Instant;
use dex_arbitr::decimal::Decimal;
use dex_arbitr::domain::Bbo;

fn d(text: &str) -> Decimal {
    Decimal::parse(text).unwrap()
}

fn now() -> Instant {
    Instant::from_millis(1_000_000_000)
}

fn book(bids: Vec<(Decimal, Decimal)>, asks: Vec<(Decimal, Decimal)>) -> Bbo {
    let (bid, bid_qty) = bids[0];
    let (ask, ask_qty) = asks[0];
    Bbo {
        bid,
        ask,
        bid_qty,
        ask_qty,
        bids,
        asks,
        ts: now(),
    }
}

#[test]
fn l1_enough_is_zero_slip() {
    let b = book(vec![(d("100"), d("1"))], vec![(d("100.1"), d("1"))]);
    assert_eq!(b.buy_slip_pct(d("0.001")).unwrap().unwrap(), d("0"));
    assert_eq!(b.sell_slip_pct(d("0.001")).unwrap().unwrap(), d("0"));
}

#[test]
fn walks_second_level() {
    let b = book(
        vec![(d("100"), d("0.0004")), (d("99"), d("1"))],
        vec![(d("101"), d("0.0004")), (d("102"), d("1"))],
    );
    let buy = b.buy_slip_pct(d("0.001")).unwrap().unwrap();
    assert_eq!(buy.round_dp(6), d("0.594059"));
    let sell = b.sell_slip_pct(d("0.001")).unwrap().unwrap();
    assert_eq!(sell, d("0.6"));
}

#[test]
fn locked_book_is_invalid() {
    let b = book(vec![(d("100"), d("1"))], vec![(d("100"), d("1"))]);
    assert!(!b.valid());
}

#[test]
fn tick_from_quote_scale() {
    let b = book(vec![(d("100.01"), d("1"))], vec![(d("100.05"), d("1"))]);
    assert_eq!(b.price_tick(), d("0.01"));
    assert_eq!(b.own_spread_pct().unwrap().unwrap().round_dp(4), d("0.0400"));
}

#[test]
fn none_when_depth_short() {
    let b = book(vec![(d("100"), d("0.0002"))], vec![(d("101"), d("0.0002"))]);
    assert!(b.buy_slip_pct(d("0.001")).unwrap().is_none());
    assert!(b.sell_slip_pct(d("0.001")).unwrap().is_none());
}

#[test]
fn depth_is_the_sum_of_a_side() {
    let b = book(
        vec![(d("100"), d("0.5")), (d("99"), d("1"))],
        vec![(d("101"), d("0.25")), (d("102"), d("1"))],
    );
    assert_eq!(b.bid_depth().unwrap(), d("1.5"));
    assert_eq!(b.ask_depth().unwrap(), d("1.25"));
}
