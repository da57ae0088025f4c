use dex_arbitr::app::control::{validate, ArbitrageControl, ArbitrageParams};
use dex_arbitr::app::risk::{books_own_spread_ok, books_quality_ok, books_tradable};
use dex_arbitr::clock::Instant;
use dex_arbitr::config::{
    default_execution, default_history_sample_interval_secs, default_history_window_hours,
    default_http, default_ioc_fill_wait_ms, default_limit_retry_count, default_limit_timeout_ms,
    default_live_test, default_maker_inside_ticks, default_emergency_slip_mult,
    default_max_slippage_pct, default_min_quote_gap_ratio, default_quote_reprice_ratio,
    default_refresh_interval_secs, default_sample_interval_ms, default_scan, default_sizing,
    default_window_samples, overlay_venue_env, venue_config_path, AppConfig, BurstConfig,
    CostConfig, GridConfig, HistoryConfig, OrderConfig, PairDefaults, PairOverride, PairSetting,
    PairsConfig, RiskConfig, SystemConfig, VenueEnv, VenueFees, VenueFile,
};
use dex_arbitr::decimal::Decimal;
use dex_arbitr::domain::{grid_step_from_target_bp, Bbo, Pair, VenueId, VenueMarket};
use dex_arbitr::keymap::KeyMap;

fn d(text: &str) -> Decimal {
    Decimal::parse(text).unwrap()
}

fn now() -> Instant {
    Instant::from_millis(1_000_000_000)
}

fn fees(maker: &str, taker: &str) -> VenueFees {
    VenueFees { maker: d(maker), taker: d(taker) }
}

fn setting(symbol: &str, base_qty: &str) -> PairSetting {
    PairSetting {
        symbol: symbol.into(),
        base_qty: d(base_qty),
        max_segments: None,
        target_bp: None,
        split_order_size: None,
        overrides: vec![],
    }
}

fn cfg() -> AppConfig {
    let mut btc = setting("BTC", "0.001");
    btc.overrides = vec![PairOverride {
        venues: vec!["lighter".into(), "entropy".into()],
        max_segments: Some(6),
        target_bp: Some(d("2")),
        split_order_size: None,
    }];
    let mut cfg = AppConfig {
        system: SystemConfig { data_freshness_ms: 3000, log_dir: "data/logs".into() },
        venues: vec![
            "lighter".into(),
            "lighter_rh".into(),
            "sodex".into(),
            "entropy".into(),
        ],
        pairs: PairsConfig {
            defaults: PairDefaults {
                max_segments: 3,
                target_bp: d("1"),
                split_order_size: Decimal::zero(),
            },
            enabled: vec![btc],
            whitelist: vec![],
        },
        grid: GridConfig {
            persistence_ms: 1000,
            persistence_min_hits: 7,
            window_samples: default_window_samples(),
            sample_interval_ms: default_sample_interval_ms(),
            step_hysteresis: Decimal::zero(),
            symmetric_limit: false,
            max_hold_secs: 0,
            quote_reprice_ratio: default_quote_reprice_ratio(),
            min_quote_gap_ratio: default_min_quote_gap_ratio(),
        },
        order: OrderConfig {
            limit_timeout_ms: default_limit_timeout_ms(),
            adjacent_timeout_ms: 0,
            second_leg_verify_ms: 2000,
            maker_inside_ticks: default_maker_inside_ticks(),
            limit_retry_count: default_limit_retry_count(),
            ioc_fill_wait_ms: default_ioc_fill_wait_ms(),
        },
        cost: CostConfig {
            default_slip_pct: d("0.01"),
            max_slippage_pct: default_max_slippage_pct(),
            emergency_slippage_multiplier: default_emergency_slip_mult(),
        },
        history: HistoryConfig {
            enabled: true,
            db_path: "data/history.db".into(),
            sample_interval_secs: default_history_sample_interval_secs(),
            window_hours: default_history_window_hours(),
            min_points: 10,
            max_age_secs: 0,
            refresh_interval_secs: default_refresh_interval_secs(),
        },
        scan: default_scan(),
        execution: default_execution(),
        sizing: default_sizing(),
        live_test: default_live_test(),
        http: default_http(),
        risk: RiskConfig { max_venue_spread_pct: d("0.15") },
        burst: BurstConfig { enabled: false, open_repeats: 0 },
        venue_fees: KeyMap::new(),
    };
    cfg.hydrate_fees(vec![
        ("lighter".into(), fees("0", "0")),
        ("lighter_rh".into(), fees("0", "0.01")),
        ("sodex".into(), fees("0.012", "0.04")),
        ("entropy".into(), fees("0.003", "0.009")),
    ]);
    cfg
}

#[test]
fn apply_to_overrides_yaml_grid_and_sizing() {
    let mut cfg = cfg();
    let mut p = ArbitrageParams::from_config(&cfg);
    p.pair_defaults.target_bp = d("1");
    p.pair_defaults.max_segments = 5;
    p.leverage_multiplier = d("3");
    p.pairs = vec![setting("SNDK", "0.01")];
    p.apply_to(&mut cfg);
    assert_eq!(cfg.pairs.defaults.target_bp, d("1"));
    assert_eq!(cfg.pairs.defaults.max_segments, 5);
    assert_eq!(cfg.sizing.leverage_multiplier, d("3"));
    assert_eq!(cfg.pairs.enabled[0].symbol, "SNDK");
}

#[test]
fn from_config_does_not_preselect_venues() {
    let cfg = cfg();
    let p = ArbitrageParams::from_config(&cfg);
    assert!(p.active_venues.is_empty());
    assert!(!cfg.venues.is_empty());
}

#[test]
fn settings_come_back_as_they_were() {
    let mut cfg = cfg();
    let p = ArbitrageParams::from_config(&cfg);
    p.apply_to(&mut cfg);
    let q = ArbitrageParams::from_config(&cfg);
    assert_eq!(p.loop_interval_ms, q.loop_interval_ms);
    assert_eq!(p.pairs[0].overrides[0].venues, q.pairs[0].overrides[0].venues);
    assert_eq!(p.max_slippage_pct, q.max_slippage_pct);
    assert_eq!(p.scan_window_samples, q.scan_window_samples);
}

#[test]
fn page_starts_with_trading_off() {
    let c = ArbitrageControl::new(&cfg());
    assert!(!c.enabled);
    assert!(!c.rematch);
}

#[test]
fn good_settings_pass_and_bad_ones_are_named() {
    let mut p = ArbitrageParams::from_config(&cfg());
    p.active_venues = vec!["lighter".into(), "sodex".into()];
    let good = validate(&p);
    assert!(good.ok, "{:?}", good.errors);
    p.leverage_multiplier = Decimal::zero();
    let bad = validate(&p);
    assert!(!bad.ok);
    assert_eq!(bad.errors.len(), good.errors.len() + 1);
}

#[test]
fn step_follows_the_target_of_the_venues() {
    let cfg = cfg();
    let grid = cfg.grid_for("BTC", "lighter", "entropy", Decimal::zero()).unwrap().unwrap();
    assert_eq!(grid.base_qty, d("0.001"));
    assert_eq!(grid.max_segments, 6);
    let fee = cfg
        .market_round_trip_taker(&VenueId::named("lighter"), &VenueId::named("entropy"))
        .unwrap();
    assert_eq!(fee, d("0.018"));
    let step = grid_step_from_target_bp(
        cfg.target_bp_for("BTC", "lighter", "entropy"),
        fee,
        Decimal::zero(),
        cfg.grid.step_hysteresis,
    )
    .unwrap();
    assert_eq!(grid.step, step);
    assert_eq!(step, d("0.038"));
    let turned = cfg.grid_for("BTC", "entropy", "lighter", Decimal::zero()).unwrap().unwrap();
    assert_eq!(turned.step, grid.step);
    let other = cfg.grid_for("BTC", "sodex", "lighter_rh", Decimal::zero()).unwrap().unwrap();
    assert_eq!(other.max_segments, 3);
    assert_eq!(other.step, d("0.11"));
    assert!(cfg.grid_for("ETH", "sodex", "lighter_rh", Decimal::zero()).unwrap().is_none());
}

#[test]
fn urgent_closing_may_slip_further() {
    let normal = default_max_slippage_pct();
    let urgent = normal.times(default_emergency_slip_mult()).unwrap();
    assert!(normal > Decimal::zero());
    assert!(urgent > normal);
}

fn venue(id: &str) -> VenueFile {
    VenueFile {
        id: id.into(),
        rest: "https://a.example".into(),
        ws: "wss://a.example".into(),
        chain_id: 1,
        quote: "USDC".into(),
        fees: fees("0", "0"),
        account_index: 0,
        api_key_index: 0,
        api_key_name: "".into(),
        account_address: "".into(),
        api_key_private_key: "".into(),
    }
}

#[test]
fn environment_replaces_what_the_file_says() {
    let env = VenueEnv {
        account_id: Some(" 42 ".into()),
        api_key_name: Some("  ".into()),
        private_key: Some("0xabc".into()),
        account_address: Some("0xdef".into()),
    };
    let mut sodex = venue("sodex");
    assert!(!sodex.keys_ready());
    overlay_venue_env(&mut sodex, &env);
    assert_eq!(sodex.account_index, 42);
    assert_eq!(sodex.api_key_name, "");
    assert_eq!(sodex.api_key_private_key, "0xabc");
    assert_eq!(sodex.account_address, "0xdef");
    let mut entropy = venue("entropy");
    overlay_venue_env(&mut entropy, &env);
    assert_eq!(entropy.account_index, 0);
    assert_eq!(entropy.api_key_private_key, "0xabc");
    let mut lighter = venue("lighter");
    overlay_venue_env(&mut lighter, &env);
    assert_eq!(lighter.api_key_private_key, "");
}

#[test]
fn leverage_of_a_venue_goes_first() {
    let mut sizing = default_sizing();
    sizing.leverage_multiplier = d("5");
    sizing.leverage_by_venue.insert("sodex", d("3"));
    assert_eq!(sizing.leverage_for("sodex"), d("3"));
    assert_eq!(sizing.leverage_for("lighter"), d("5"));
}

fn pair() -> Pair {
    let leg = |v: &str| VenueMarket {
        venue: VenueId::named(v),
        raw_symbol: "BTC".into(),
        pair_id: "BTC-USD-PERP".into(),
        base: "BTC".into(),
        market_index: 1,
        qty_precision: 5,
        min_qty: d("0.0002"),
        volume_24h_usdc: None,
    };
    Pair { pair_id: "BTC-USD-PERP".into(), legs: [leg("lighter"), leg("sodex")] }
}

fn book(bid: &str, ask: &str, qty: &str) -> Bbo {
    Bbo {
        bid: d(bid),
        ask: d(ask),
        bid_qty: d(qty),
        ask_qty: d(qty),
        bids: vec![(d(bid), d(qty))],
        asks: vec![(d(ask), d(qty))],
        ts: now(),
    }
}

#[test]
fn rejects_wide_single_venue_spread() {
    let none = Decimal::zero();
    let good = book("100.00", "100.02", "1");
    let wide = book("100.00", "101.00", "1");
    assert_eq!(
        books_tradable(&cfg(), &pair(), &good, &wide, none, d("0.001"), now()).unwrap(),
        Err("wide_book")
    );
    assert!(books_tradable(&cfg(), &pair(), &good, &good, none, d("0.001"), now())
        .unwrap()
        .is_ok());
    assert_eq!(books_quality_ok(&cfg(), &good, &wide, now()).unwrap(), Err("wide_book"));
    assert_eq!(books_own_spread_ok(&cfg(), &good, &wide).unwrap(), Err("wide_book"));
}

#[test]
fn thin_check_falls_back_to_leg_min_qty() {
    let none = Decimal::zero();
    let thin = book("100.00", "100.02", "0.0001");
    assert_eq!(
        books_tradable(&cfg(), &pair(), &thin, &thin, none, Decimal::zero(), now()).unwrap(),
        Err("thin_book")
    );
}

#[test]
fn rejects_locked_book() {
    let none = Decimal::zero();
    let locked = book("100", "100", "1");
    assert_eq!(
        books_tradable(&cfg(), &pair(), &locked, &locked, none, d("0.001"), now()).unwrap(),
        Err("invalid_bbo")
    );
}

#[test]
fn venue_files_are_found_beside_their_examples() {
    assert_eq!(venue_config_path("sodex", true, true).unwrap(), "config/venues/sodex.yaml");
    assert_eq!(
        venue_config_path("lighter_rh", false, true).unwrap(),
        "config/venues/lighter_robinhood.example.yaml"
    );
    assert_eq!(
        venue_config_path("sodex", false, false).unwrap_err(),
        "read venue config/venues/sodex.yaml (also missing config/venues/sodex.example.yaml)"
    );
    assert_eq!(venue_config_path("/etc/x", true, false).unwrap(), "/etc/x.yaml");
    assert_eq!(
        venue_config_path("/x", false, false).unwrap_err(),
        "read venue /x.yaml (also missing /x.example.yaml)"
    );
}
