use dex_arbitr::decimal::Decimal;
use dex_arbitr::domain::funding::{
    allows_open, funding_view, unfavorable_for_position, FundingExit, VenueFunding,
};
use dex_arbitr::domain::VenueId;

fn d(text: &str) -> Decimal {
    Decimal::parse(text).unwrap()
}

fn f(venue: &str, rate: Decimal, interval: u32) -> VenueFunding {
    VenueFunding {
        venue: VenueId::named(venue),
        rate,
        interval_secs: interval,
    }
}

#[test]
fn hourly_annualizes_by_8760_not_1095() {
    let buy = f("lighter", d("0"), 3600);
    let sell = f("sodex", d("0.0001"), 3600);
    let v = funding_view(&buy, &sell).unwrap().unwrap();
    assert_eq!(v.net_pct, d("0.01"));
    assert_eq!(v.net_annual_pct, d("87.60"));
}

#[test]
fn eight_hour_matches_reference_coefficient() {
    let buy = f("a", d("0"), 8 * 3600);
    let sell = f("b", d("0.0001"), 8 * 3600);
    let v = funding_view(&buy, &sell).unwrap().unwrap();
    assert_eq!(v.net_annual_pct, d("10.95"));
}

#[test]
fn net_rate_keeps_sign_when_paying() {
    let buy = f("lighter", d("0.0002"), 3600);
    let sell = f("sodex", d("0.0001"), 3600);
    let v = funding_view(&buy, &sell).unwrap().unwrap();
    assert_eq!(v.net_pct, d("-0.01"));
    assert!(!v.favorable());
}

#[test]
fn open_gate_blocks_costly_payment() {
    let buy = f("lighter", d("0.0002"), 3600);
    let sell = f("sodex", d("0.0001"), 3600);
    let v = funding_view(&buy, &sell).unwrap().unwrap();
    assert!(!allows_open(&v, d("10")));
    assert!(allows_open(&v, d("100")));
    assert!(allows_open(&v, d("0")));
}

#[test]
fn open_gate_always_allows_when_earning() {
    let buy = f("lighter", d("0"), 3600);
    let sell = f("sodex", d("0.001"), 3600);
    let v = funding_view(&buy, &sell).unwrap().unwrap();
    assert!(v.favorable());
    assert!(allows_open(&v, d("1")));
}

#[test]
fn strongly_favorable_never_exits() {
    let buy = f("lighter", d("0"), 3600);
    let sell = f("sodex", d("0.001"), 3600);
    let v = funding_view(&buy, &sell).unwrap().unwrap();
    assert!(v.net_annual_pct > d("800"));
    assert_eq!(unfavorable_for_position(&v, true, d("10")), None);
}

#[test]
fn detects_direction_reversal() {
    let buy = f("lighter", d("0.0002"), 3600);
    let sell = f("sodex", d("0.0001"), 3600);
    let v = funding_view(&buy, &sell).unwrap().unwrap();
    assert_eq!(
        unfavorable_for_position(&v, true, d("0")),
        Some(FundingExit::Reversed)
    );
}

#[test]
fn costly_payment_exits_without_reversal() {
    let buy = f("lighter", d("0.0002"), 3600);
    let sell = f("sodex", d("0.0001"), 3600);
    let v = funding_view(&buy, &sell).unwrap().unwrap();
    assert_eq!(
        unfavorable_for_position(&v, false, d("10")),
        Some(FundingExit::TooCostly)
    );
    assert_eq!(unfavorable_for_position(&v, false, d("100")), None);
}

#[test]
fn mixed_intervals_use_shorter() {
    let buy = f("a", d("0"), 8 * 3600);
    let sell = f("b", d("0.0001"), 3600);
    let v = funding_view(&buy, &sell).unwrap().unwrap();
    assert_eq!(v.net_annual_pct, d("87.60"));
}

#[test]
fn zero_interval_is_rejected() {
    let buy = f("a", d("0"), 0);
    let sell = f("b", d("0.0001"), 3600);
    assert!(funding_view(&buy, &sell).unwrap().is_none());
}
