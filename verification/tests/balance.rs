use dex_arbitr::app::balance::{BalanceCache, VenueAccountCache, VenueAccountSnapshot};
use dex_arbitr::clock::Instant;
use dex_arbitr::decimal::Decimal;
use dex_arbitr::keymap::KeyMap;

fn d(text: &str) -> Decimal {
    Decimal::parse(text).unwrap()
}

fn now() -> Instant {
    Instant::from_millis(1_000_000_000)
}

fn snap(venue: &str, available: Decimal, fresh: bool) -> VenueAccountSnapshot {
    VenueAccountSnapshot {
        venue: venue.into(),
        available,
        total: available,
        positions: vec![],
        fresh,
    }
}

#[test]
fn absorb_keeps_last_fresh_on_failure() {
    let mut cache = VenueAccountCache {
        venues: vec![snap("lighter", d("100"), true)],
        last_refresh: now(),
    };
    cache.absorb(VenueAccountCache {
        venues: vec![snap("lighter", d("0"), false)],
        last_refresh: now(),
    });
    let v = cache.get("lighter").unwrap();
    assert!(v.fresh);
    assert_eq!(v.available, d("100"));
    assert_eq!(cache.to_balance_map().get("lighter").copied(), Some(d("100")));
}

#[test]
fn smallest_balance_above_zero() {
    let mut by_venue = KeyMap::new();
    by_venue.insert("a", d("0"));
    let mut cache = BalanceCache { by_venue, last_refresh: now() };
    assert_eq!(cache.global_min(), d("0"));
    cache.by_venue.insert("b", d("7"));
    cache.by_venue.insert("c", d("5"));
    assert_eq!(cache.global_min(), d("5"));
}
