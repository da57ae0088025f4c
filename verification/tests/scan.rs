use dex_arbitr::app::scan::{
    coarse_spread_sum, expand_scan_subscribe, filter_scan_markets, merge_coarse_refresh, rank_bases,
    CoarseCfg, ScanEngine, ScoredPair,
};
use dex_arbitr::clock::{Duration, Instant};
use dex_arbitr::decimal::Decimal;
use dex_arbitr::domain::book::new_books;
use dex_arbitr::domain::{Bbo, Pair, VenueId, VenueMarket};
use dex_arbitr::keymap::KeySet;

fn d(text: &str) -> Decimal {
    Decimal::parse(text).unwrap()
}

fn now() -> Instant {
    Instant::from_millis(1_000_000_000)
}

fn to_float(x: &Decimal) -> f64 {
    x.text().parse().unwrap()
}

fn sample_std(vals: &[Decimal]) -> Option<Decimal> {
    if vals.len() < 2 {
        return None;
    }
    let xs: Vec<f64> = vals.iter().map(to_float).collect();
    let n = xs.len() as f64;
    let mean = xs.iter().sum::<f64>() / n;
    let var = xs.iter().map(|x| (x - mean) * (x - mean)).sum::<f64>() / (n - 1.0);
    Decimal::parse(format!("{:.10}", var.sqrt()).as_str())
}

fn scored(engine: &ScanEngine, pair: &Pair) -> Option<ScoredPair> {
    let sigma = match engine.window_spreads(pair) {
        Some(spreads) => sample_std(&spreads),
        None => None,
    };
    engine.score(pair, d("1"), d("0.02"), Decimal::zero(), sigma).unwrap()
}

fn mkt(venue: &str, pair_id: &str, vol: Option<Decimal>) -> VenueMarket {
    VenueMarket {
        venue: VenueId::named(venue),
        raw_symbol: pair_id.to_string(),
        pair_id: pair_id.to_string(),
        base: "SOL".into(),
        market_index: 1,
        qty_precision: 4,
        min_qty: d("0.01"),
        volume_24h_usdc: vol,
    }
}

fn book(bid: Decimal, ask: Decimal, qty: Decimal) -> Bbo {
    Bbo {
        bid,
        ask,
        bid_qty: qty,
        ask_qty: qty,
        bids: vec![(bid, qty)],
        asks: vec![(ask, qty)],
        ts: now(),
    }
}

#[test]
fn drops_venue_without_volume_field() {
    let listed = vec![
        (
            "lighter".into(),
            vec![mkt("lighter", "SOL-USD-PERP", None)],
        ),
        (
            "sodex".into(),
            vec![mkt("sodex", "SOL-USD-PERP", Some(d("20000000")))],
        ),
    ];
    let (kept, dropped) = filter_scan_markets(listed, d("10000000"));
    assert_eq!(dropped, vec!["lighter".to_string()]);
    assert_eq!(kept.len(), 1);
}

#[test]
fn volume_must_be_strictly_above_ten_million() {
    let listed = vec![(
        "entropy".into(),
        vec![
            mkt("entropy", "A-USD-PERP", Some(d("10000000"))),
            mkt("entropy", "B-USD-PERP", Some(d("10000001"))),
        ],
    )];
    let (kept, _) = filter_scan_markets(listed, d("10000000"));
    assert_eq!(kept[0].len(), 1);
    assert_eq!(kept[0][0].pair_id, "B-USD-PERP");
}

#[test]
fn coarse_keeps_wide_spread() {
    let pair = Pair {
        pair_id: "SOL-USD-PERP".into(),
        legs: [
            mkt("lighter", "SOL-USD-PERP", Some(d("20000000"))),
            mkt("sodex", "SOL-USD-PERP", Some(d("20000000"))),
        ],
    };
    let mut books = new_books();
    books.put("lighter", "SOL-USD-PERP", book(d("100"), d("100.01"), d("10")));
    books.put("sodex", "SOL-USD-PERP", book(d("100"), d("101"), d("10")));
    let cfg = CoarseCfg {
        min_volume: d("10000000"),
        max_own_spread_pct: d("0.15"),
        min_level_notional_usdc: d("200"),
        freshness_ms: 3000,
        require_fresh: true,
    };
    assert!(coarse_spread_sum(&pair, &books, &cfg, now()).unwrap().is_some());
}

#[test]
fn rest_snapshot_skips_ws_freshness() {
    let pair = Pair {
        pair_id: "SOL-USD-PERP".into(),
        legs: [
            mkt("lighter", "SOL-USD-PERP", Some(d("20000000"))),
            mkt("sodex", "SOL-USD-PERP", Some(d("20000000"))),
        ],
    };
    let mut stale = book(d("100"), d("100.01"), d("10"));
    stale.ts = now().before(Duration::from_secs(30)).unwrap();
    let mut books = new_books();
    books.put("lighter", "SOL-USD-PERP", stale.clone());
    books.put("sodex", "SOL-USD-PERP", stale);
    let mut cfg = CoarseCfg {
        min_volume: d("10000000"),
        max_own_spread_pct: d("0.15"),
        min_level_notional_usdc: d("200"),
        freshness_ms: 3000,
        require_fresh: false,
    };
    assert!(coarse_spread_sum(&pair, &books, &cfg, now()).unwrap().is_some());
    cfg.require_fresh = true;
    assert!(coarse_spread_sum(&pair, &books, &cfg, now()).unwrap().is_none());
}

#[test]
fn coarse_refresh_keeps_topn_keys() {
    let keep = Pair {
        pair_id: "AAA-USD-PERP".into(),
        legs: [
            mkt("lighter", "AAA-USD-PERP", Some(d("20000000"))),
            mkt("sodex", "AAA-USD-PERP", Some(d("20000000"))),
        ],
    };
    let drop = Pair {
        pair_id: "BBB-USD-PERP".into(),
        legs: [
            mkt("lighter", "BBB-USD-PERP", Some(d("20000000"))),
            mkt("sodex", "BBB-USD-PERP", Some(d("20000000"))),
        ],
    };
    let fresh = Pair {
        pair_id: "CCC-USD-PERP".into(),
        legs: [
            mkt("lighter", "CCC-USD-PERP", Some(d("20000000"))),
            mkt("sodex", "CCC-USD-PERP", Some(d("20000000"))),
        ],
    };
    let mut retain = KeySet::new();
    retain.insert(keep.slot_key().as_str(), ());
    let out = merge_coarse_refresh(
        &[keep.clone(), drop],
        vec![fresh.clone()],
        &retain,
        40,
    );
    assert_eq!(out.len(), 2);
    assert_eq!(out[0].pair_id, "AAA-USD-PERP");
    assert_eq!(out[1].pair_id, "CCC-USD-PERP");
}

#[test]
fn ranks_one_row_per_base_by_edge() {
    let mut engine = ScanEngine::new(10, 1000);
    let a = Pair {
        pair_id: "SOL-USD-PERP".into(),
        legs: [
            mkt("lighter", "SOL-USD-PERP", Some(d("20000000"))),
            mkt("lighter_rh", "SOL-USD-PERP", Some(d("20000000"))),
        ],
    };
    for i in 0..10 {
        let drift = Decimal::new(i, 3);
        let left = book(d("100").plus(drift).unwrap(), d("100.01").plus(drift).unwrap(), d("5"));
        let right = book(d("100.20"), d("100.21"), d("5"));
        engine.observe(&a, &left, &right, 1_000 * (i as u64 + 1)).unwrap();
    }
    let scored = scored(&engine, &a)
        .unwrap();
    assert!(scored.n >= 10);
    let rows = rank_bases(
        vec![scored],
        &engine,
        &["lighter".into(), "lighter_rh".into()],
        20,
    )
    .unwrap();
    assert_eq!(rows.len(), 1);
    assert_eq!(rows[0].base, "SOL");
    assert!(rows[0].same_family);
}

#[test]
fn unfilled_window_does_not_score() {
    let mut engine = ScanEngine::new(10, 1000);
    let pair = Pair {
        pair_id: "SOL-USD-PERP".into(),
        legs: [
            mkt("lighter", "SOL-USD-PERP", Some(d("20000000"))),
            mkt("sodex", "SOL-USD-PERP", Some(d("20000000"))),
        ],
    };
    let left = book(d("100"), d("100.01"), d("5"));
    let right = book(d("100.2"), d("100.21"), d("5"));
    engine.observe(&pair, &left, &right, 1000).unwrap();
    assert!(scored(&engine, &pair).is_none());
    assert_eq!(engine.max_n(&[pair]), 1);
}

#[test]
fn expand_subscribe_adds_same_coin_other_venues() {
    let cand = Pair {
        pair_id: "SOL-USD-PERP".into(),
        legs: [
            mkt("lighter", "SOL-USD-PERP", Some(d("20000000"))),
            mkt("lighter_rh", "SOL-USD-PERP", Some(d("20000000"))),
        ],
    };
    let extra = Pair {
        pair_id: "SOL-USD-PERP".into(),
        legs: [
            mkt("lighter", "SOL-USD-PERP", Some(d("20000000"))),
            mkt("sodex", "SOL-USD-PERP", Some(d("20000000"))),
        ],
    };
    let other = Pair {
        pair_id: "BTC-USD-PERP".into(),
        legs: [
            mkt("lighter", "BTC-USD-PERP", Some(d("20000000"))),
            mkt("sodex", "BTC-USD-PERP", Some(d("20000000"))),
        ],
    };
    let out = expand_scan_subscribe(&[cand.clone()], &[cand.clone(), extra.clone(), other]);
    assert_eq!(out.len(), 2);
    assert!(out.iter().any(|p| p.slot_key() == extra.slot_key()));
}

#[test]
fn venue_column_fills_without_being_candidate_leg() {
    let mut engine = ScanEngine::new(10, 1000);
    let pair = Pair {
        pair_id: "SOL-USD-PERP".into(),
        legs: [
            mkt("lighter", "SOL-USD-PERP", Some(d("20000000"))),
            mkt("lighter_rh", "SOL-USD-PERP", Some(d("20000000"))),
        ],
    };
    let sodex = book(d("99.5"), d("99.6"), d("8"));
    for i in 0..10 {
        let left = book(d("100"), d("100.01"), d("5"));
        let right = book(d("100.20"), d("100.21"), d("5"));
        engine.observe(&pair, &left, &right, 1_000 * (i as u64 + 1)).unwrap();
        engine.observe_venue("sodex", "SOL-USD-PERP", &sodex, 1_000 * (i as u64 + 1)).unwrap();
    }
    let scored = scored(&engine, &pair)
        .unwrap();
    let rows = rank_bases(
        vec![scored],
        &engine,
        &[
            "lighter".into(),
            "lighter_rh".into(),
            "sodex".into(),
            "entropy".into(),
        ],
        20,
    )
    .unwrap();
    assert!(rows[0].venues.get("sodex").unwrap().mid_mean.is_some());
    assert!(rows[0].venues.get("sodex").unwrap().own_spread_mean.is_some());
    assert!(rows[0].venues.get("entropy").unwrap().mid_mean.is_none());
}
