use dex_arbitr::app::limits::{
    balance_health, position_expired, BalanceHealth, DailyTrades, NotionalLimits,
};
use dex_arbitr::clock::Duration;
use dex_arbitr::decimal::Decimal;

fn d(text: &str) -> Decimal {
    Decimal::parse(text).unwrap()
}

const DAY: &str = "2024-01-01";

#[test]
fn daily_limit_counts_and_blocks() {
    let mut d = DailyTrades::default();
    assert!(d.allows(2, DAY));
    d.record(DAY);
    assert!(d.allows(2, DAY));
    d.record(DAY);
    assert!(!d.allows(2, DAY));
    assert_eq!(d.count(DAY), 2);
}

#[test]
fn daily_limit_zero_means_unlimited() {
    let mut d = DailyTrades::default();
    for _ in 0..500 {
        d.record(DAY);
    }
    assert!(d.allows(0, DAY));
}

#[test]
fn balance_tiers() {
    assert_eq!(balance_health(d("2000"), d("1000"), d("500")), BalanceHealth::Healthy);
    assert_eq!(balance_health(d("800"), d("1000"), d("500")), BalanceHealth::Low);
    assert_eq!(balance_health(d("400"), d("1000"), d("500")), BalanceHealth::Critical);
    assert_eq!(balance_health(d("1"), Decimal::zero(), Decimal::zero()), BalanceHealth::Healthy);
}

#[test]
fn duration_gate() {
    assert!(!position_expired(Duration::from_secs(3600), 168));
    assert!(position_expired(Duration::from_secs(168 * 3600), 168));
    assert!(!position_expired(Duration::from_secs(u32::MAX as u64), 0));
}

#[test]
fn notional_per_symbol_gate() {
    let l = NotionalLimits {
        per_symbol: d("500"),
        total: d("2000"),
    };
    assert!(l.check("BTC", d("200"), d("400"), d("400")).unwrap().is_err());
    assert!(l.check("BTC", d("50"), d("400"), d("400")).unwrap().is_ok());
}

#[test]
fn notional_total_gate() {
    let l = NotionalLimits {
        per_symbol: Decimal::zero(),
        total: d("2000"),
    };
    assert!(l.check("ETH", d("200"), d("1900"), d("1900")).unwrap().is_err());
    assert!(l.check("ETH", d("50"), d("1900"), d("1900")).unwrap().is_ok());
}

#[test]
fn notional_zero_limits_disable_checks() {
    let l = NotionalLimits::default();
    assert!(l
        .check("BTC", d("1000000"), d("9999999"), d("99999999")).unwrap()
        .is_ok());
}

#[test]
fn notional_negative_held_uses_absolute_value() {
    let l = NotionalLimits {
        per_symbol: d("500"),
        total: Decimal::zero(),
    };
    assert!(l.check("ETH", d("200"), d("-400"), d("-400")).unwrap().is_err());
}
