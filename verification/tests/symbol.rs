use dex_arbitr::decimal::Decimal;
use dex_arbitr::domain::symbol::{
    is_cross_dex, match_all_pairs, match_pairs, normalize_perp, slot_key, strip_hip3_prefix,
};
use dex_arbitr::domain::{VenueId, VenueMarket};

fn d(text: &str) -> Decimal {
    Decimal::parse(text).unwrap()
}

fn mkt(venue: &str, raw: &str, market_type: &str, id: i32) -> Option<VenueMarket> {
    let (base, pair_id) = normalize_perp(raw, market_type)?;
    Some(VenueMarket {
        venue: VenueId::named(venue),
        raw_symbol: raw.to_string(),
        pair_id,
        base,
        market_index: id,
        qty_precision: 4,
        min_qty: d("0.001"),
        volume_24h_usdc: None,
    })
}

#[test]
fn hip3_io_sndk_matches_rh_usdg() {
    let a = normalize_perp("io:SNDK-USDC", "perp").unwrap();
    let b = normalize_perp("io:SNDK", "perp").unwrap();
    let c = normalize_perp("SNDK-USDG", "perp").unwrap();
    assert_eq!(a, ("SNDK".into(), "SNDK-USD-PERP".into()));
    assert_eq!(b, a);
    assert_eq!(c.1, a.1);
    assert_eq!(strip_hip3_prefix("IO:SNDK"), "SNDK");
    assert_eq!(strip_hip3_prefix("SNDK-USDG"), "SNDK-USDG");
}

#[test]
fn usdc_and_usdg_map_to_same_pair() {
    let a = normalize_perp("BTC-USDC", "perp").unwrap();
    let b = normalize_perp("BTCUSDG", "perp").unwrap();
    let c = normalize_perp("BTC", "perp").unwrap();
    let f = normalize_perp("BTC-USD", "perp").unwrap();
    let e = normalize_perp("vBTC_vUSDC", "perp").unwrap();
    assert_eq!(a.1, "BTC-USD-PERP");
    assert_eq!(b.1, "BTC-USD-PERP");
    assert_eq!(c.1, "BTC-USD-PERP");
    assert_eq!(f.1, "BTC-USD-PERP");
    assert_eq!(e, ("BTC".into(), "BTC-USD-PERP".into()));
    assert_eq!(normalize_perp("VVV-USD", "perp").unwrap().0, "VVV");
}

#[test]
fn drops_spot() {
    assert!(normalize_perp("BTC-USDC", "spot").is_none());
}

#[test]
fn match_requires_both_legs() {
    let left = vec![
        mkt("lighter", "BTC", "perp", 1).unwrap(),
        mkt("lighter", "SOL", "perp", 2).unwrap(),
    ];
    let right = vec![mkt("lighter_rh", "BTCUSDG", "perp", 7).unwrap()];
    let pairs = match_pairs(&left, &right);
    assert_eq!(pairs.len(), 1);
    assert_eq!(pairs[0].pair_id, "BTC-USD-PERP");
}

#[test]
fn lighter_family_is_not_cross_dex() {
    assert!(!is_cross_dex("lighter", "lighter_rh"));
    assert!(is_cross_dex("lighter", "sodex"));
    assert!(is_cross_dex("lighter_rh", "sodex"));
}

#[test]
fn slot_key_isolates_venue_combinations() {
    let a = slot_key("BTC-USD-PERP", "lighter", "sodex");
    let b = slot_key("BTC-USD-PERP", "lighter", "lighter_rh");
    assert_ne!(a, b);
    assert_eq!(a, slot_key("BTC-USD-PERP", "sodex", "lighter"));
}

#[test]
fn three_venues_make_three_pairs() {
    let lighter = vec![mkt("lighter", "BTC-USDC", "perp", 1).unwrap()];
    let rh = vec![mkt("lighter_rh", "BTCUSDG", "perp", 7).unwrap()];
    let sodex = vec![mkt("sodex", "BTC-USD", "perp", 24).unwrap()];
    let pairs = match_all_pairs(&[lighter, rh, sodex]);
    assert_eq!(pairs.len(), 3);
    assert!(pairs.iter().all(|p| p.pair_id == "BTC-USD-PERP"));
}

#[test]
fn names_that_are_normal_stay() {
    let want = Some(("BTC".to_string(), "BTC-USD-PERP".to_string()));
    for raw in ["BTC", "btc-usdc", "BTC-USDG", "Btc-Usdt", "BTC-USD", "btc-usd-perp"] {
        assert_eq!(normalize_perp(raw, "perp"), want);
    }
}
