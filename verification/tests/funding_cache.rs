use dex_arbitr::app::funding::{refresh_funding, FundingCache, UnfavorableTracker};
use dex_arbitr::clock::{Duration, Instant};
use dex_arbitr::decimal::Decimal;
use dex_arbitr::domain::VenueId;
use dex_arbitr::exchange::FundingRate;

fn d(text: &str) -> Decimal {
    Decimal::parse(text).unwrap()
}

fn now() -> Instant {
    Instant::from_millis(1_000_000_000)
}

fn rates(rate: &str) -> Vec<FundingRate> {
    vec![FundingRate { symbol: "BTC".to_string(), rate: d(rate), interval_secs: 3600 }]
}

fn cache() -> FundingCache {
    let rows = vec![
        ("lighter".to_string(), rates("0.0002")),
        ("sodex".to_string(), rates("0.0001")),
    ];
    refresh_funding(&rows, now())
}

#[test]
fn view_orients_net_by_leg_direction() {
    let c = cache();
    let lighter = VenueId::named("lighter");
    let sodex = VenueId::named("sodex");
    let v = c.view(&lighter, "BTC", &sodex, "BTC").unwrap().unwrap();
    assert_eq!(v.net_pct, d("-0.01"));
    let v = c.view(&sodex, "BTC", &lighter, "BTC").unwrap().unwrap();
    assert_eq!(v.net_pct, d("0.01"));
}

#[test]
fn symbol_lookup_is_case_insensitive() {
    let c = cache();
    assert!(c
        .view(
            &VenueId::named("lighter"),
            "btc",
            &VenueId::named("sodex"),
            "Btc"
        )
        .unwrap()
        .is_some());
}

#[test]
fn missing_leg_yields_none() {
    let c = cache();
    assert!(c
        .view(
            &VenueId::named("lighter"),
            "ETH",
            &VenueId::named("sodex"),
            "ETH"
        )
        .unwrap()
        .is_none());
}

#[test]
fn stale_cache_is_not_fresh() {
    let c = FundingCache::default();
    assert!(!c.is_fresh(Duration::from_secs(300), now()));
    assert!(cache().is_fresh(Duration::from_secs(300), now()));
}

#[test]
fn tracker_requires_duration() {
    let mut t = UnfavorableTracker::default();
    assert!(!t.sustained("btc:l:s", 60, now()));
    assert!(t.sustained("btc:l:s", 0, now()));
}

#[test]
fn tracker_clear_restarts_clock() {
    let mut t = UnfavorableTracker::default();
    t.mark("s", now());
    t.clear("s");
    assert!(!t.is_marked("s"));
}
