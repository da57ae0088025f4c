use dex_arbitr::clock::Instant;
use dex_arbitr::decimal::Decimal;
use dex_arbitr::domain::{Position, VenueId};

fn d(text: &str) -> Decimal {
    Decimal::parse(text).unwrap()
}

fn now() -> Instant {
    Instant::from_millis(1_000_000_000)
}

fn pos(buy: Decimal, sell: Decimal) -> Position {
    Position {
        pair_id: "BTC-USD-PERP".into(),
        buy: VenueId::named("lighter"),
        sell: VenueId::named("entropy"),
        qty: d("0.01"),
        grid: 1,
        entry_notional_usdc: d("100"),
        entry_net_pct: d("0.05"),
        entry_raw_pct: d("0.05"),
        entry_buy_px: buy,
        entry_sell_px: sell,
        base_qty: d("0.01"),
        opened_at: now(),
    }
}

#[test]
fn two_leg_pnl_sums_long_and_short() {
    let p = pos(d("100"), d("100.5"));
    assert_eq!(
        p.two_leg_pnl_usdc(d("1"), d("100.4"), d("100.1")).unwrap(),
        Some(d("0.8"))
    );
}

#[test]
fn two_leg_pnl_none_without_prices() {
    let p = pos(Decimal::zero(), d("100"));
    assert!(p.two_leg_pnl_usdc(d("1"), d("100"), d("100")).unwrap().is_none());
}

#[test]
fn this_close_pnl_is_entry_net_plus_exit_raw_minus_fee() {
    let mut p = pos(d("100"), d("100.5"));
    p.entry_net_pct = d("0.46");
    let got = p
        .this_close_pnl(d("1"), d("100.4"), d("100.1"), d("0.04")).unwrap()
        .unwrap();
    assert!(got.pct.minus(d("0.7197002997")).unwrap().abs() < d("0.0001"));
    let notional = d("100").plus(d("100.5")).unwrap().over(d("2")).unwrap();
    let earned = got.pct.over(d("100")).unwrap().times(notional).unwrap();
    assert!(got.usdc.minus(earned).unwrap().abs() < d("0.0000001"));
}

#[test]
fn this_close_pnl_none_without_exit_prices() {
    let mut p = pos(d("100"), d("100.5"));
    p.entry_net_pct = d("0.46");
    assert!(p.this_close_pnl(d("1"), Decimal::zero(), d("100.1"), d("0.04")).unwrap().is_none());
    assert!(p.this_close_pnl(d("1"), d("100.4"), Decimal::zero(), d("0.04")).unwrap().is_none());
}

#[test]
fn direction_is_that_of_both_venues() {
    let p = pos(d("100"), d("100.5"));
    let (a, b) = (VenueId::named("lighter"), VenueId::named("entropy"));
    assert!(p.same_direction(&a, &b));
    assert!(!p.same_direction(&b, &a));
}
