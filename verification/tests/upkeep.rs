use dex_arbitr::app::activate::{
    check_pairs, check_start, merge_kept_pairs, must_run, select_pairs, validate_pair_qty,
    wanted_pairs, ActivateError,
};
use dex_arbitr::app::audit::{
    audit_memory_positions, recently_flattened, restore_memory_from_exchange,
    same_sign_open_positions, should_log_mismatch, AuditStep,
};
use dex_arbitr::app::balance::{
    refresh_accounts, BalanceCache, VenueAccountCache, VenueAccountSnapshot, VenueExchangePosition,
};
use dex_arbitr::app::burst::{BurstBlock, BurstFacts, BurstPhase, BurstSlot, BurstStep, RoundStep};
use dex_arbitr::app::burst_look::{look_at_burst, round_gate, BurstLook, RoundGate};
use dex_arbitr::app::control::ArbitrageControl;
use dex_arbitr::app::intervention::{Cause, InterventionGuard};
use dex_arbitr::app::live::live_snapshot;
use dex_arbitr::app::manual::{cap_qty, command_of, find_market, Command};
use dex_arbitr::app::monitor::{figures, residual, Centre};
use dex_arbitr::app::naked::{
    naked_key, next_naked_hedge, on_naked_hedge, pair_has_naked, pair_naked_inflight,
    record_naked_from_failed_hedge, record_unknown_naked, take_foreign,
};
use dex_arbitr::app::order::{capped_outcome, hand_over, hand_over_round};
use dex_arbitr::app::pair_look::{look_at_pair, settle, LookStep, Settled, Switches};
use dex_arbitr::app::pair_step::{
    resting_floor, watch_one_pending, BookStep, GateFacts, OpenFacts, OpenSkip, PairStep,
};
use dex_arbitr::app::positions::PositionStore;
use dex_arbitr::app::reconcile::{NakedExposure, NakedSource};
use dex_arbitr::app::runtime::{
    arbitrage_enabled, clear_arbitrage_memory, current_grid_level, drop_idle_windows, enabled_edge,
    live_scan_venues, loop_interval_ms, may_run, reconcile_exchange_positions, scan_is_running,
    snapshot_due, sync_page_config, which_loop, Edge, LoopKind,
};
use dex_arbitr::app::scan::{
    candidate_cap, select_candidates, CoarseCfg, ScanEngine, ScanPhase, COARSE_PROBE_BATCH,
};
use dex_arbitr::app::scan_loop::{
    coarse_cfg, drop_quiet_pairs, next_probe_batch, pair_venues, pairs_without_books, phase_after,
    refresh_scan_volumes, replaces, sample_candidates, sample_venues, scan_keep_venue_coins,
    scan_min_volume, scan_tick, score_candidates, venue_markets, ScanTick,
};
use dex_arbitr::app::scan_state::{ScanError, ScanState};
use dex_arbitr::app::snapshot::{
    available_pairs_payload, balance_rows, best_net, exchange_position_rows, mark_ui_status,
    matched_row, naked_source_text, position_rows, scan_summary, sorted_rows, spread_text,
    venue_match_rows, volume_text, PairRow,
};
use dex_arbitr::app::window_spread::{VenueSpreadBook, WindowBook};
use dex_arbitr::clock::{Duration, Instant};
use dex_arbitr::config::{
    default_execution, default_history_sample_interval_secs, default_history_window_hours,
    default_http, default_ioc_fill_wait_ms, default_limit_retry_count, default_limit_timeout_ms,
    default_live_test, default_maker_inside_ticks, default_emergency_slip_mult,
    default_max_slippage_pct, default_min_quote_gap_ratio, default_quote_reprice_ratio,
    default_refresh_interval_secs, default_sample_interval_ms, default_scan, default_sizing,
    default_window_samples, AppConfig, BurstConfig, CostConfig, GridConfig, HistoryConfig,
    OrderConfig, OrderStyle, PairDefaults, PairOverride, PairSetting, PairsConfig, RiskConfig, SystemConfig,
    VenueFees,
};
use dex_arbitr::decimal::Decimal;
use dex_arbitr::domain::book::{new_books, BookMap};
use dex_arbitr::domain::{
    Bbo, CloseReason, GridParams, Intent, NetSpread, Pair, VenueId, VenueMarket, WindowGridEngine,
};
use dex_arbitr::exchange::{AccountSnapshot, Balance, VenuePosition};
use dex_arbitr::keymap::{KeyMap, KeySet};

fn d(text: &str) -> Decimal {
    Decimal::parse(text).unwrap()
}

fn now() -> Instant {
    Instant::from_millis(1_000_000_000)
}

fn secs(n: u64) -> Duration {
    Duration::from_secs(n)
}

fn fees(maker: &str, taker: &str) -> VenueFees {
    VenueFees { maker: d(maker), taker: d(taker) }
}

fn setting(symbol: &str, base_qty: &str) -> PairSetting {
    PairSetting {
        symbol: symbol.into(),
        base_qty: d(base_qty),
        max_segments: None,
        target_bp: None,
        split_order_size: None,
        overrides: vec![],
    }
}

fn cfg() -> AppConfig {
    let mut btc = setting("BTC", "0.001");
    btc.overrides = vec![PairOverride {
        venues: vec!["lighter".into(), "entropy".into()],
        max_segments: Some(6),
        target_bp: Some(d("2")),
        split_order_size: None,
    }];
    let mut cfg = AppConfig {
        system: SystemConfig { data_freshness_ms: 3000, log_dir: "data/logs".into() },
        venues: vec![
            "lighter".into(),
            "lighter_rh".into(),
            "sodex".into(),
            "entropy".into(),
        ],
        pairs: PairsConfig {
            defaults: PairDefaults {
                max_segments: 3,
                target_bp: d("1"),
                split_order_size: Decimal::zero(),
            },
            enabled: vec![btc],
            whitelist: vec![],
        },
        grid: GridConfig {
            persistence_ms: 1000,
            persistence_min_hits: 7,
            window_samples: default_window_samples(),
            sample_interval_ms: default_sample_interval_ms(),
            step_hysteresis: Decimal::zero(),
            symmetric_limit: false,
            max_hold_secs: 0,
            quote_reprice_ratio: default_quote_reprice_ratio(),
            min_quote_gap_ratio: default_min_quote_gap_ratio(),
        },
        order: OrderConfig {
            limit_timeout_ms: default_limit_timeout_ms(),
            adjacent_timeout_ms: 0,
            second_leg_verify_ms: 2000,
            maker_inside_ticks: default_maker_inside_ticks(),
            limit_retry_count: default_limit_retry_count(),
            ioc_fill_wait_ms: default_ioc_fill_wait_ms(),
        },
        cost: CostConfig {
            default_slip_pct: d("0.01"),
            max_slippage_pct: default_max_slippage_pct(),
            emergency_slippage_multiplier: default_emergency_slip_mult(),
        },
        history: HistoryConfig {
            enabled: true,
            db_path: "data/history.db".into(),
            sample_interval_secs: default_history_sample_interval_secs(),
            window_hours: default_history_window_hours(),
            min_points: 10,
            max_age_secs: 0,
            refresh_interval_secs: default_refresh_interval_secs(),
        },
        scan: default_scan(),
        execution: default_execution(),
        sizing: default_sizing(),
        live_test: default_live_test(),
        http: default_http(),
        risk: RiskConfig { max_venue_spread_pct: d("0.15") },
        burst: BurstConfig { enabled: false, open_repeats: 0 },
        venue_fees: KeyMap::new(),
    };
    cfg.hydrate_fees(vec![
        ("lighter".into(), fees("0", "0")),
        ("lighter_rh".into(), fees("0", "0.01")),
        ("sodex".into(), fees("0.012", "0.04")),
        ("entropy".into(), fees("0.003", "0.009")),
    ]);
    cfg
}

fn market(venue: &str, base: &str) -> VenueMarket {
    VenueMarket {
        venue: VenueId::named(venue),
        raw_symbol: base.into(),
        pair_id: format!("{base}-USD-PERP"),
        base: base.into(),
        market_index: 1,
        qty_precision: 4,
        min_qty: d("0.0002"),
        volume_24h_usdc: Some(d("20000000")),
    }
}

fn pair(base: &str, left: &str, right: &str) -> Pair {
    Pair {
        pair_id: format!("{base}-USD-PERP"),
        legs: [market(left, base), market(right, base)],
    }
}

fn book(bid: &str, ask: &str) -> Bbo {
    Bbo {
        bid: d(bid),
        ask: d(ask),
        bid_qty: d("100"),
        ask_qty: d("100"),
        bids: vec![(d(bid), d("100"))],
        asks: vec![(d(ask), d("100"))],
        ts: now(),
    }
}

fn account(venue: &str, holdings: &[(&str, &str)], fresh: bool) -> VenueAccountSnapshot {
    VenueAccountSnapshot {
        venue: venue.into(),
        available: d("100"),
        total: d("120"),
        positions: holdings
            .iter()
            .map(|(symbol, qty)| VenueExchangePosition {
                symbol: symbol.to_string(),
                qty: d(qty),
                entry_price: Some(d("10")),
                realized_pnl: None,
            })
            .collect(),
        fresh,
    }
}

fn accounts(venues: Vec<VenueAccountSnapshot>) -> VenueAccountCache {
    VenueAccountCache { venues, last_refresh: now() }
}

fn hold(store: &mut PositionStore, pair: &Pair, qty: &str) {
    store
        .record_open(
            pair.slot_key().as_str(),
            pair.pair_id.as_str(),
            pair.legs[0].venue.clone(),
            pair.legs[1].venue.clone(),
            d(qty),
            1,
            d("100"),
            d("0.05"),
            d("0.06"),
            d("0.001"),
            d("100"),
            d("101"),
            now(),
        )
        .unwrap();
}

fn naked(venue: &str, qty: &str, source: NakedSource) -> NakedExposure {
    NakedExposure {
        pair_id: "BTC-USD-PERP".into(),
        venue: venue.into(),
        qty: d(qty),
        counterparty: "lighter".into(),
        source,
    }
}

fn both_books(pair: &Pair) -> BookMap {
    let mut books = new_books();
    books.put(pair.legs[0].venue.as_str(), pair.pair_id.as_str(), book("100", "100.02"));
    books.put(pair.legs[1].venue.as_str(), pair.pair_id.as_str(), book("100.01", "100.03"));
    books
}

#[test]
fn open_legs_are_listed_once() {
    let mut list = vec![];
    assert!(record_naked_from_failed_hedge(
        &mut list,
        "BTC-USD-PERP",
        "sodex",
        "lighter",
        false,
        d("0.5")
    ));
    assert_eq!(list[0].qty, d("-0.5"));
    assert_eq!(list[0].source, NakedSource::BotFailure);
    assert!(pair_has_naked(&list, "BTC-USD-PERP"));
    assert!(!pair_has_naked(&list, "ETH-USD-PERP"));
    record_unknown_naked(&mut list, "ETH-USD-PERP", "sodex", d("1"), "lighter");
    assert_eq!(list[1].source, NakedSource::SecondLegUnknown);
    take_foreign(&mut list, &vec![naked("lighter", "2", NakedSource::Foreign)]);
    assert_eq!(list.len(), 2);
    assert_eq!(list[0].source, NakedSource::BotFailure);
    assert_eq!(list[1].qty, d("2"));
    let mut busy = KeySet::new();
    busy.insert(naked_key(&list[0]).as_str(), ());
    assert!(pair_naked_inflight(&busy, "BTC-USD-PERP"));
    assert!(!pair_naked_inflight(&busy, "BTC"));
}

#[test]
fn only_failed_orders_are_made_up_for() {
    let mut cfg = cfg();
    cfg.execution.hedge_failed_legs = true;
    let pairs = vec![pair("BTC", "lighter", "sodex")];
    let books = both_books(&pairs[0]);
    let fresh =
        accounts(vec![account("lighter", &[], true), account("sodex", &[("BTC", "0.5")], true)]);
    let none = KeySet::new();
    let mut guard = InterventionGuard::new();
    let mut ask = |list: &Vec<NakedExposure>, busy: &mut KeySet, enabled: bool| {
        next_naked_hedge(
            enabled,
            &cfg,
            list,
            busy,
            &fresh,
            &mut guard,
            &pairs,
            &none,
            &none,
            &books,
            Decimal::zero(),
            now(),
        )
        .unwrap()
    };
    let foreign = vec![naked("sodex", "0.5", NakedSource::Foreign)];
    assert!(ask(&foreign, &mut KeySet::new(), true).is_none());
    let failed = vec![naked("sodex", "0.5", NakedSource::BotFailure)];
    assert!(ask(&failed, &mut KeySet::new(), false).is_none());
    let mut busy = KeySet::new();
    let order = ask(&failed, &mut busy, true).unwrap();
    assert_eq!(order.pair_id, "BTC-USD-PERP");
    assert_eq!(order.qty, d("0.5"));
    assert!(!order.is_buy);
    assert_eq!(busy.len(), 1);
    assert!(ask(&failed, &mut busy, true).is_none());
    let mut list = failed;
    let key = naked_key(&list[0]);
    on_naked_hedge(&mut list, &mut busy, key.as_str(), "BTC-USD-PERP", "sodex", None);
    assert!(list.is_empty());
    assert!(busy.is_empty());
}

#[test]
fn settling_never_raises_what_is_remembered() {
    let btc = pair("BTC", "lighter", "sodex");
    let slot = btc.slot_key();
    let mut store = PositionStore::new();
    hold(&mut store, &btc, "0.5");
    let mut flat = KeyMap::new();
    let mut reported = KeyMap::new();
    let none = KeySet::new();
    let pairs = vec![btc];
    let less = accounts(vec![
        account("lighter", &[("BTC", "0.2")], true),
        account("sodex", &[("BTC", "-0.2")], true),
    ]);
    let steps = audit_memory_positions(
        &mut store,
        &mut flat,
        &mut reported,
        &less,
        &none,
        &pairs,
        now(),
    )
    .unwrap();
    assert!(matches!(steps[0], AuditStep::Differs(_, _)));
    assert_eq!(store.get(slot.as_str()).unwrap().qty, d("0.2"));
    let more = accounts(vec![
        account("lighter", &[("BTC", "0.9")], true),
        account("sodex", &[("BTC", "-0.9")], true),
    ]);
    audit_memory_positions(&mut store, &mut flat, &mut reported, &more, &none, &pairs, now())
        .unwrap();
    assert_eq!(store.get(slot.as_str()).unwrap().qty, d("0.2"));
    let same = accounts(vec![
        account("lighter", &[("BTC", "1")], true),
        account("sodex", &[("BTC", "1")], true),
    ]);
    assert!(same_sign_open_positions(&pairs[0], &same).unwrap());
    assert!(!same_sign_open_positions(&pairs[0], &more).unwrap());
}

#[test]
fn slots_that_live_are_not_restored() {
    let cfg = cfg();
    let btc = pair("BTC", "lighter", "sodex");
    let books = both_books(&btc);
    let held = accounts(vec![
        account("lighter", &[("BTC", "0.001")], true),
        account("sodex", &[("BTC", "-0.001")], true),
    ]);
    let none = KeySet::new();
    let flat: KeyMap<Instant> = KeyMap::new();
    let mut windows = WindowBook::new(2, 1000);
    let mut store = PositionStore::new();
    let pairs = vec![btc];
    let slot = pairs[0].slot_key();
    let mut restore = |store: &mut PositionStore, flat: &KeyMap<Instant>| {
        restore_memory_from_exchange(
            store,
            &mut windows,
            &cfg,
            &books,
            &held,
            &none,
            flat,
            &pairs,
            now(),
        )
        .unwrap()
    };
    let mut closed = KeyMap::new();
    closed.insert(slot.as_str(), now());
    assert_eq!(restore(&mut store, &closed), 0);
    assert_eq!(restore(&mut store, &flat), 1);
    assert_eq!(store.get(slot.as_str()).unwrap().qty, d("0.001"));
    assert_eq!(restore(&mut store, &flat), 0);
}

#[test]
fn reports_are_not_repeated_at_once() {
    let mut flat = KeyMap::new();
    flat.insert("s", now());
    assert!(recently_flattened(&flat, "s", now().after(secs(7))));
    assert!(!recently_flattened(&flat, "s", now().after(secs(9))));
    assert!(!recently_flattened(&flat, "t", now()));
    let mut reported = KeyMap::new();
    assert!(should_log_mismatch(&mut reported, "s", now()));
    assert!(!should_log_mismatch(&mut reported, "s", now().after(secs(10))));
    assert!(should_log_mismatch(&mut reported, "s", now().after(secs(31))));
}

#[test]
fn pairs_that_hold_something_are_kept() {
    let btc = pair("BTC", "lighter", "sodex");
    let eth = pair("ETH", "lighter", "sodex");
    let mut store = PositionStore::new();
    hold(&mut store, &btc, "0.5");
    let none = KeySet::new();
    let kept = merge_kept_pairs(&vec![eth.clone()], &vec![btc.clone()], &store, &none, &none);
    assert_eq!(kept.len(), 2);
    let gone = merge_kept_pairs(
        &vec![eth.clone()],
        &vec![btc.clone()],
        &PositionStore::new(),
        &none,
        &none,
    );
    assert_eq!(gone.len(), 1);
    let pairs = vec![eth, btc];
    assert_eq!(must_run(&pairs, &store, &none, &none), vec![1]);
    assert_eq!(may_run(2, &vec![1]), vec![0]);
}

#[test]
fn pairs_are_chosen_by_coin_venue_and_quantity() {
    let cfg = cfg();
    let all = vec![pair("BTC", "lighter", "sodex"), pair("ETH", "lighter", "sodex")];
    let wanted = wanted_pairs(&all, &cfg.pairs.enabled);
    assert_eq!(wanted.len(), 1);
    assert_eq!(wanted[0].pair_id, "BTC-USD-PERP");
    let both = vec!["lighter".to_string(), "sodex".to_string()];
    assert_eq!(select_pairs(&cfg, &both, &wanted).len(), 1);
    assert!(select_pairs(&cfg, &vec!["lighter".to_string()], &wanted).is_empty());
    assert!(validate_pair_qty(&cfg, &wanted[0]));
    let mut coarse = wanted[0].clone();
    coarse.legs[0].qty_precision = 2;
    assert!(!validate_pair_qty(&cfg, &coarse));
}

#[test]
fn starting_is_refused_for_a_reason() {
    let mut cfg = cfg();
    let both = vec!["lighter".to_string(), "sodex".to_string()];
    let mut keys = KeySet::new();
    assert!(matches!(
        check_start(&cfg, &vec!["lighter".to_string()], &keys),
        Err(ActivateError::FewVenues)
    ));
    keys.insert("lighter", ());
    match check_start(&cfg, &both, &keys) {
        Err(ActivateError::MissingKeys(missing)) => assert_eq!(missing, vec!["sodex"]),
        other => panic!("{other:?}"),
    }
    keys.insert("sodex", ());
    assert!(check_start(&cfg, &both, &keys).is_ok());
    cfg.burst.enabled = true;
    cfg.pairs.enabled.push(setting("ETH", "0.1"));
    match check_start(&cfg, &both, &keys) {
        Err(e) => assert!(matches!(e, ActivateError::BurstSymbols(2))),
        other => panic!("{other:?}"),
    }
    let many = vec![pair("BTC", "lighter", "sodex"), pair("BTC", "lighter", "entropy")];
    assert!(matches!(check_pairs(&cfg, &many), Err(ActivateError::BurstPairs(2))));
}

#[test]
fn loops_follow_the_settings() {
    let mut cfg = cfg();
    cfg.http.enabled = false;
    cfg.execution.enabled = false;
    cfg.scan.enabled = false;
    assert_eq!(which_loop(&cfg), LoopKind::Events);
    cfg.scan.enabled = true;
    assert_eq!(which_loop(&cfg), LoopKind::Scan);
    assert!(scan_is_running(None, &cfg));
    assert!(!scan_is_running(Some(false), &cfg));
    cfg.execution.enabled = true;
    assert_eq!(which_loop(&cfg), LoopKind::Unified);
    assert!(!scan_is_running(None, &cfg));
    assert!(arbitrage_enabled(None, &cfg));
    assert!(!arbitrage_enabled(Some(false), &cfg));
    cfg.scan.analysis_interval_ms = 3;
    cfg.execution.loop_interval_ms = 100;
    assert_eq!(loop_interval_ms(&cfg, true), 10);
    assert_eq!(loop_interval_ms(&cfg, false), 100);
    assert_eq!(enabled_edge(true, false), Edge::Stopped);
    assert_eq!(enabled_edge(false, true), Edge::Started);
    assert_eq!(enabled_edge(true, true), Edge::Same);
    let known = vec!["a".to_string(), "b".to_string()];
    assert_eq!(live_scan_venues(Some(&vec!["c".to_string()]), &known), known);
    assert_eq!(live_scan_venues(None, &known), known);
    assert!(!snapshot_due(now(), now().after(secs(1)), secs(2)));
    assert!(snapshot_due(now(), now().after(secs(2)), secs(2)));
}

#[test]
fn wishes_of_the_page_are_taken_once() {
    let mut c = ArbitrageControl::new(&cfg());
    c.rematch = true;
    assert!(c.take_rematch().is_none());
    assert!(!c.rematch);
    c.rematch = true;
    c.params.active_venues = vec!["lighter".into(), "sodex".into()];
    assert_eq!(c.take_rematch().unwrap().len(), 2);
    assert!(c.take_rematch().is_none());
    c.rematch_scan = true;
    assert_eq!(c.take_scan_rematch(), Some(false));
    assert_eq!(c.take_scan_rematch(), None);
    c.rematch_scan = true;
    c.scan_running = true;
    c.params.scan_venues = vec!["lighter".into(), "sodex".into()];
    assert_eq!(c.take_scan_rematch(), Some(true));
}

#[test]
fn stopping_forgets_the_strategy() {
    let btc = pair("BTC", "lighter", "sodex");
    let slot = btc.slot_key();
    let pairs = vec![btc];
    let mut store = PositionStore::new();
    hold(&mut store, &pairs[0], "0.5");
    assert_eq!(current_grid_level(&store, slot.as_str()), Some(1));
    let mut list = vec![
        naked("sodex", "1", NakedSource::BotFailure),
        naked("sodex", "1", NakedSource::Foreign),
    ];
    let mut guard = InterventionGuard::new();
    guard.mark("BTC-USD-PERP", Cause::OrphanOrder, "x", None, now());
    let mut windows = WindowBook::new(2, 1000);
    windows.observe(slot.as_str(), 0, d("1"));
    windows.observe("other", 0, d("1"));
    let mut spreads = VenueSpreadBook::new(2, 1000);
    spreads.observe("lighter", 0, d("1"));
    spreads.observe("entropy", 0, d("1"));
    let mut engine = WindowGridEngine::new();
    let none = KeySet::new();
    let keep =
        drop_idle_windows(&pairs, &store, &none, &none, &mut windows, &mut spreads, &mut engine);
    assert!(keep.contains(slot.as_str()));
    assert_eq!(windows.sample_count(slot.as_str()), 1);
    assert_eq!(windows.sample_count("other"), 0);
    assert_eq!(spreads.sample_count("lighter"), 1);
    assert_eq!(spreads.sample_count("entropy"), 0);
    let mut flat = KeyMap::new();
    let mut rounds = KeyMap::new();
    rounds.insert(slot.as_str(), BurstSlot::default());
    let mut placing = KeySet::new();
    placing.insert(slot.as_str(), ());
    let mut pending = KeySet::new();
    pending.insert(slot.as_str(), ());
    let mut busy = KeySet::new();
    busy.insert("x", ());
    let mut dust = KeyMap::new();
    dust.insert(slot.as_str(), now());
    let mut reported = KeyMap::new();
    reported.insert(slot.as_str(), now());
    let mut rows = KeyMap::new();
    rows.insert(slot.as_str(), row("BTC-USD-PERP", "lighter", "sodex", "0.1%"));
    clear_arbitrage_memory(
        &pairs,
        &mut store,
        &mut list,
        &mut guard,
        &mut windows,
        &mut spreads,
        &mut engine,
        &mut flat,
        &mut rounds,
        &mut placing,
        &mut pending,
        &mut busy,
        &mut dust,
        &mut reported,
        &mut rows,
        now(),
    );
    assert!(rounds.is_empty() && placing.is_empty() && pending.is_empty() && busy.is_empty());
    assert!(dust.is_empty() && reported.is_empty() && rows.is_empty());
    assert_eq!(store.open_count(), 0);
    assert_eq!(list.len(), 1);
    assert_eq!(list[0].source, NakedSource::Foreign);
    assert!(guard.is_empty());
    assert_eq!(windows.sample_count(slot.as_str()), 0);
    assert!(recently_flattened(&flat, slot.as_str(), now()));
    assert_eq!(current_grid_level(&store, slot.as_str()), None);
}

#[test]
fn page_settings_reach_the_windows() {
    let mut cfg = cfg();
    let mut c = ArbitrageControl::new(&cfg);
    c.params.window_samples = 7;
    c.params.scan_window_samples = 30;
    let mut windows = WindowBook::new(2, 1000);
    let mut spreads = VenueSpreadBook::new(2, 1000);
    let mut engine = ScanEngine::new(10, 1000);
    sync_page_config(&c.params, &mut cfg, &mut windows, &mut spreads, &mut engine);
    assert_eq!(cfg.grid.window_samples, 7);
    assert_eq!((windows.cap(), spreads.cap(), engine.cap()), (7, 7, 30));
}

#[test]
fn venues_that_do_not_answer_settle_nothing() {
    let pairs = vec![pair("BTC", "lighter", "sodex")];
    let mut list = vec![];
    let half =
        accounts(vec![account("lighter", &[("BTC", "1")], true), account("sodex", &[], false)]);
    assert_eq!(reconcile_exchange_positions(&pairs, &half, &mut list, true), Ok(false));
    assert!(list.is_empty());
    let full =
        accounts(vec![account("lighter", &[("BTC", "1")], true), account("sodex", &[], true)]);
    assert_eq!(reconcile_exchange_positions(&pairs, &full, &mut list, true), Ok(true));
    assert_eq!(list.len(), 1);
    assert_eq!(list[0].source, NakedSource::Foreign);
}

#[test]
fn accounts_are_read_in_stable_coins() {
    let snapshot = AccountSnapshot {
        balances: vec![
            Balance { asset: "USDC".into(), available: d("10"), total: Some(d("12")) },
            Balance { asset: "BTC".into(), available: d("1"), total: None },
        ],
        positions: vec![VenuePosition {
            symbol: "BTC".into(),
            qty: d("0.5"),
            entry_price: None,
            realized_pnl: None,
        }],
    };
    let rows = vec![("lighter".to_string(), snapshot, true)];
    let (balance, cache) = refresh_accounts(&rows, &default_sizing(), now()).unwrap();
    assert_eq!(balance.venue_available("lighter"), d("10"));
    let account = cache.get("lighter").unwrap();
    assert_eq!(account.total, d("12"));
    assert_eq!(account.positions.len(), 1);
    assert!(account.fresh);
}

#[test]
fn markets_are_asked_for_once() {
    let pairs = vec![
        pair("BTC", "lighter", "sodex"),
        pair("BTC", "lighter", "entropy"),
        pair("ETH", "lighter", "sodex"),
    ];
    let markets = venue_markets(&pairs, "lighter");
    assert_eq!(markets.len(), 2);
    assert_eq!(pair_venues(&pairs).len(), 3);
    let books = both_books(&pairs[0]);
    let bare = pairs_without_books(&pairs, &books);
    assert_eq!(bare.len(), 2);
}

fn coarse() -> CoarseCfg {
    coarse_cfg(&cfg(), false)
}

#[test]
fn scans_move_from_probe_to_sample() {
    let tick = |running, phase, until, last: Instant| {
        scan_tick(running, phase, until, last, 60, true, now())
    };
    assert_eq!(tick(false, ScanPhase::Live, None, now()), ScanTick::Off);
    assert_eq!(
        tick(true, ScanPhase::Coarse, Some(now().after(secs(1))), now()),
        ScanTick::Probing
    );
    assert_eq!(tick(true, ScanPhase::Coarse, Some(now()), now()), ScanTick::ProbeOver);
    assert_eq!(
        tick(true, ScanPhase::Live, None, now()),
        ScanTick::Sample { refresh: false }
    );
    let long_ago = now().before(secs(61)).unwrap();
    assert_eq!(
        tick(true, ScanPhase::Live, None, long_ago),
        ScanTick::Sample { refresh: true }
    );
    assert_eq!(phase_after(1, true), ScanPhase::Live);
    assert_eq!(phase_after(0, true), ScanPhase::Sampling);
    assert_eq!((candidate_cap(20, 0), candidate_cap(1, 0), candidate_cap(20, 5)), (80, 40, 5));
}

#[test]
fn candidates_are_sampled_and_scored() {
    let cfg = cfg();
    let universe = vec![pair("BTC", "lighter", "sodex"), pair("ETH", "lighter", "sodex")];
    let books = both_books(&universe[0]);
    let found = select_candidates(&universe, &books, &coarse(), 10, now()).unwrap();
    assert_eq!(found.len(), 1);
    assert_eq!(found[0].pair_id, "BTC-USD-PERP");
    let mut engine = ScanEngine::new(10, 1000);
    let venues = vec!["lighter".to_string(), "sodex".to_string()];
    for i in 0..25u64 {
        sample_candidates(&mut engine, &found, &books, 3000, i * 1000, now()).unwrap();
        sample_venues(&mut engine, &found, &venues, &books, 3000, i * 1000, now()).unwrap();
    }
    assert_eq!(engine.max_n(&found), 10);
    assert!(engine.venue_cell("sodex", "BTC-USD-PERP").unwrap().mid_mean.is_some());
    let scored = score_candidates(&cfg, &engine, &found, &vec![Some(d("1"))]).unwrap();
    assert_eq!(scored.len(), 1);
    assert!(scored[0].eligible);
    assert!(score_candidates(&cfg, &engine, &found, &vec![None]).unwrap().is_empty());
    assert_eq!(scan_keep_venue_coins(&found, &venues).len(), 2);
    assert!(!replaces(&found, &found));
    let s = scan_summary(true, ScanPhase::Live, &universe, &found, &engine);
    assert_eq!((s.universe, s.candidates, s.filled_n, s.window_n), (2, 1, 1, 10));
    assert_eq!(scan_summary(false, ScanPhase::Idle, &universe, &found, &engine).universe, 0);
}

#[test]
fn quiet_pairs_leave_the_scan() {
    let universe = vec![pair("BTC", "lighter", "sodex")];
    let mut quiet = market("lighter", "BTC");
    quiet.volume_24h_usdc = Some(d("1"));
    let fresh = refresh_scan_volumes(&universe, "lighter", &vec![quiet]);
    assert_eq!(fresh[0].legs[0].volume_24h_usdc, Some(d("1")));
    assert_eq!(fresh[0].legs[1].volume_24h_usdc, Some(d("20000000")));
    assert_eq!(drop_quiet_pairs(&universe, d("100")).len(), 1);
    assert!(drop_quiet_pairs(&fresh, d("100")).is_empty());
    assert!(scan_min_volume(&cfg()) > Decimal::zero());
}

#[test]
fn scan_runs_from_start_to_stop() {
    let mut state = ScanState::new();
    let mut engine = ScanEngine::new(10, 1000);
    let one = vec!["lighter".to_string()];
    assert_eq!(state.start(&mut engine, &one), Err(ScanError::TooFewVenues));
    let two = vec!["lighter".to_string(), "sodex".to_string()];
    assert!(state.start(&mut engine, &two).is_ok());
    assert_eq!(state.phase, ScanPhase::Starting);
    assert_eq!(state.matched(1, vec![]), Err(ScanError::TooFewVolumes));
    let universe = vec![pair("BTC", "lighter", "sodex")];
    assert!(state.matched(2, universe.clone()).is_ok());
    assert_eq!(state.phase, ScanPhase::Coarse);
    state.probe_queue = (0..25).map(|_| universe[0].clone()).collect();
    assert_eq!(state.probe(now()).len(), COARSE_PROBE_BATCH);
    assert!(!state.probe_is_over(now()));
    assert!(state.probe_is_over(now().after(secs(3))));
    assert_eq!(state.probe(now()).len(), 5);
    assert!(state.probe(now()).is_empty());
    state.coarse_done(universe, now());
    assert_eq!(state.phase, ScanPhase::Sampling);
    let mut control = ArbitrageControl::new(&cfg());
    control.scan_running = true;
    state.fail(&mut engine, Some(&mut control), "no books");
    assert_eq!(state.error.as_deref(), Some("no books"));
    assert_eq!(state.phase, ScanPhase::Error);
    assert!(!control.scan_running && state.candidates.is_empty());
    state.stop(&mut engine);
    assert_eq!(state.phase, ScanPhase::Idle);
    assert!(state.error.is_none() && state.venues.is_empty());
    let mut queue = vec![pair("BTC", "lighter", "sodex")];
    assert_eq!(next_probe_batch(&mut queue).len(), 1);
    assert!(queue.is_empty());
}

fn row(pair_id: &str, buy: &str, sell: &str, net: &str) -> PairRow {
    let mut r = matched_row(&pair("BTC", buy, sell), "0.1%");
    r.pair_id = pair_id.into();
    r.net_pct = net.into();
    r
}

#[test]
fn rows_stand_by_coin_and_venue() {
    let rows = vec![
        row("ETH", "a", "b", "+0.05%"),
        row("BTC", "b", "a", "—"),
        row("BTC", "a", "c", " -0.10% "),
        row("BTC", "a", "b", "0.01%"),
    ];
    assert_eq!(best_net(&rows), Some(d("0.05")));
    let venues = vec!["a".to_string(), "b".to_string(), "c".to_string()];
    let matches = venue_match_rows(&rows, &venues);
    let told: Vec<(&str, &str, usize)> =
        matches.iter().map(|m| (m.left.as_str(), m.right.as_str(), m.n)).collect();
    assert_eq!(told, vec![("a", "b", 3), ("a", "c", 1)]);
    let sorted = sorted_rows(rows);
    let keys: Vec<(&str, &str, &str)> =
        sorted.iter().map(|r| (r.pair_id.as_str(), r.buy.as_str(), r.sell.as_str())).collect();
    assert_eq!(
        keys,
        vec![("BTC", "a", "b"), ("BTC", "a", "c"), ("BTC", "b", "a"), ("ETH", "a", "b")]
    );
    assert_eq!(best_net(&vec![row("BTC", "a", "b", "—")]), None);
    let mut by_slot = KeyMap::new();
    by_slot.insert("s", row("BTC", "a", "b", "—"));
    mark_ui_status(&mut by_slot, "s", "平仓中");
    mark_ui_status(&mut by_slot, "t", "平仓中");
    assert_eq!(by_slot.get("s").unwrap().status, "平仓中");
    assert_eq!(by_slot.len(), 1);
}

#[test]
fn page_shows_what_is_held() {
    let btc = pair("BTC", "lighter", "sodex");
    let mut store = PositionStore::new();
    hold(&mut store, &btc, "0.5");
    let rows = position_rows(&store);
    assert_eq!(rows.len(), 1);
    assert_eq!((rows[0].qty.as_str(), rows[0].grid), ("0.5", 1));
    assert_eq!(rows[0].entry_notional, "100");
    let cache = accounts(vec![account("lighter", &[("BTC", "0.2")], true)]);
    let mut by_venue = KeyMap::new();
    by_venue.insert("sodex", d("7"));
    let balance = BalanceCache { by_venue, last_refresh: now() };
    let venues = vec!["lighter".to_string(), "sodex".to_string(), "entropy".to_string()];
    let shown = balance_rows(&venues, &cache, &balance);
    assert_eq!((shown[0].available.as_str(), shown[0].total.as_str()), ("100", "120"));
    assert_eq!((shown[1].available.as_str(), shown[1].total.as_str()), ("7", "7"));
    assert_eq!(shown[2].available, "0");
    let held = exchange_position_rows(&cache);
    assert_eq!((held[0].venue.as_str(), held[0].qty.as_str()), ("lighter", "0.2"));
    assert_eq!(held[0].entry_price.as_deref(), Some("10"));
    assert_eq!(naked_source_text(NakedSource::Foreign), "foreign");
    assert_eq!(naked_source_text(NakedSource::BotFailure), "bot_failure");
    assert_eq!(naked_source_text(NakedSource::SecondLegUnknown), "second_leg_unknown");
    assert_eq!(spread_text(Some(d("0.0125")), 3, 5).unwrap(), "0.0125%");
    assert_eq!(spread_text(None, 3, 5).unwrap(), "3/5");
    assert_eq!(spread_text(None, 0, 5).unwrap(), "—");
    assert_eq!(volume_text(Some(d("1.125"))), "1.12");
    assert_eq!(volume_text(None), "0.00");
}

#[test]
fn coins_can_be_chosen_in_dictionary_order() {
    let cfg = cfg();
    let spreads = VenueSpreadBook::new(2, 1000);
    let pairs = vec![
        pair("SOL", "lighter", "sodex"),
        pair("BTC", "lighter", "sodex"),
        pair("BTC", "lighter", "entropy"),
    ];
    let books = both_books(&pairs[1]);
    let shown = available_pairs_payload(&cfg, &spreads, &books, &pairs).unwrap();
    let coins: Vec<&str> = shown.iter().map(|s| s.symbol.as_str()).collect();
    assert_eq!(coins, vec!["BTC", "SOL"]);
    assert_eq!(shown[0].pair_id, "BTC-USD-PERP");
    assert_eq!(shown[0].venue_pairs.len(), 2);
    assert_eq!(shown[0].venue_pairs[0].mid.as_deref(), Some("100.0150"));
    assert_eq!(shown[0].venue_pairs[1].mid, None);
    assert_eq!(shown[0].venue_pairs[0].qty_precision, 4);
    assert_eq!(shown[0].venue_pairs[1].round_trip_fee_pct, "0.018");
}

struct Eye {
    cfg: AppConfig,
    pair: Pair,
    windows: WindowBook,
    spreads: VenueSpreadBook,
    engine: WindowGridEngine,
    balance: BalanceCache,
}

fn eye() -> Eye {
    Eye {
        cfg: cfg(),
        pair: pair("BTC", "lighter", "lighter_rh"),
        windows: WindowBook::new(5, 10_000),
        spreads: VenueSpreadBook::new(5, 10_000),
        engine: WindowGridEngine::new(),
        balance: BalanceCache { by_venue: KeyMap::new(), last_refresh: now() },
    }
}

const ON: Switches = Switches { enabled: true, burst: false, pending: false, hedging: false };

impl Eye {
    fn look(
        &mut self,
        switches: Switches,
        store: &PositionStore,
        active: Option<&Vec<String>>,
        left: Option<Bbo>,
        right: Option<Bbo>,
        ms: u64,
    ) -> LookStep {
        let at = now().after(Duration::from_millis(ms));
        let left = left.map(|b| Bbo { ts: at, ..b });
        let right = right.map(|b| Bbo { ts: at, ..b });
        look_at_pair(
            &self.cfg,
            switches,
            active,
            &self.pair,
            store.get(self.pair.slot_key().as_str()),
            true,
            &self.balance,
            &mut self.windows,
            &mut self.spreads,
            &mut self.engine,
            left.as_ref(),
            right.as_ref(),
            Decimal::zero(),
            1_000_000 + ms,
            at,
        )
        .unwrap()
    }
}

fn level() -> Option<Bbo> {
    Some(book("100", "100.01"))
}

fn high() -> Option<Bbo> {
    Some(book("101", "101.01"))
}

#[test]
fn looks_end_where_something_is_missing() {
    let mut eye = eye();
    let flat = PositionStore::new();
    let off = Switches { enabled: false, ..ON };
    let step = eye.look(off, &flat, None, level(), level(), 0);
    assert!(matches!(step, LookStep::Idle));
    let resting = Switches { pending: true, ..off };
    let step = eye.look(resting, &flat, None, None, None, 0);
    assert!(matches!(step, LookStep::Watch));
    let placing = Switches { hedging: true, ..ON };
    let step = eye.look(placing, &flat, None, level(), level(), 0);
    assert!(matches!(step, LookStep::Paint));
    let bursts = Switches { burst: true, pending: true, ..ON };
    let step = eye.look(bursts, &flat, None, level(), level(), 0);
    assert!(matches!(step, LookStep::Burst));
    let others = vec!["lighter".to_string(), "sodex".to_string()];
    let step = eye.look(ON, &flat, Some(&others), level(), level(), 0);
    assert!(matches!(step, LookStep::NotChosen));
    let step = eye.look(ON, &flat, None, None, level(), 0);
    assert!(matches!(step, LookStep::NoBook(BookStep::NoLeft)));
    let wide = Some(book("100", "101"));
    let step = eye.look(ON, &flat, None, wide, level(), 0);
    assert!(matches!(step, LookStep::Refused("wide_book")));
    assert_eq!(eye.windows.sample_count(eye.pair.slot_key().as_str()), 0);
    let step = eye.look(ON, &flat, None, level(), level(), 0);
    assert!(matches!(step, LookStep::Sampling));
    assert_eq!(eye.windows.sample_count(eye.pair.slot_key().as_str()), 1);
    eye.pair = pair("DOGE", "lighter", "lighter_rh");
    let step = eye.look(ON, &flat, None, level(), level(), 0);
    assert!(matches!(step, LookStep::NotConfigured));
}

fn again(intent: &Intent) -> Intent {
    match intent {
        Intent::Open { qty, buy, sell, grid } => {
            Intent::Open { qty: *qty, buy: buy.clone(), sell: sell.clone(), grid: *grid }
        }
        Intent::Close { qty, grid, reason, round_trip_pct } => Intent::Close {
            qty: *qty,
            grid: *grid,
            reason: *reason,
            round_trip_pct: *round_trip_pct,
        },
        Intent::Hold => Intent::Hold,
    }
}

#[test]
fn spreads_that_last_are_opened() {
    let mut eye = eye();
    let flat = PositionStore::new();
    let cap = eye.windows.cap() as u64;
    for i in 0..cap - 1 {
        let step = eye.look(ON, &flat, None, level(), level(), i * 10_000);
        assert!(matches!(step, LookStep::Sampling), "{i} {step:?}");
    }
    let full = (cap - 1) * 10_000;
    match eye.look(ON, &flat, None, level(), level(), full) {
        LookStep::Wanted(Intent::Hold, params, mid) => {
            assert_eq!(params.base_qty, d("0.001"));
            assert_eq!(mid, d("100.005"));
        }
        other => panic!("{other:?}"),
    }
    let mut opened = None;
    for i in 0..30u64 {
        let step = eye.look(ON, &flat, None, high(), level(), full + 50 + i * 50);
        if let LookStep::Wanted(Intent::Open { qty, buy, sell, grid }, _, mid) = step {
            assert_eq!(buy.as_str(), "lighter_rh");
            assert_eq!(sell.as_str(), "lighter");
            assert!(grid > 0 && qty.is_positive());
            opened = Some((Intent::Open { qty, buy, sell, grid }, mid, i));
            break;
        }
    }
    let (intent, mid, rounds) = opened.unwrap();
    assert!(rounds >= 6);

    let mut guard = InterventionGuard::new();
    let none = KeyMap::new();
    let may = OpenFacts { enabled: true, naked: false, keys_ready: true };
    let facts =
        GateFacts { is_pending: false, in_flight: false, grid: None, flatten: None, view: None };
    let left = high().unwrap();
    let right = level().unwrap();
    let mut rich = BalanceCache { by_venue: KeyMap::new(), last_refresh: now() };
    rich.by_venue.insert("lighter", d("1000"));
    rich.by_venue.insert("lighter_rh", d("1000"));
    let mut go = |balance: &BalanceCache, intent: &Intent, has_spread: bool, may: OpenFacts| {
        settle(
            &eye.cfg,
            balance,
            &none,
            &mut guard,
            &eye.pair,
            None,
            again(intent),
            None,
            &left,
            &right,
            mid,
            has_spread,
            may,
            facts,
            now(),
        )
        .unwrap()
    };
    assert!(matches!(go(&eye.balance, &intent, true, may), Settled::Refused("no_margin")));
    assert!(matches!(go(&rich, &intent, false, may), Settled::Refused("thin_book")));
    assert!(matches!(
        go(&rich, &intent, true, may),
        Settled::Done(PairStep::Trade(Intent::Open { .. }, None), None)
    ));
    let stopped = OpenFacts { enabled: false, ..may };
    assert!(matches!(
        go(&rich, &intent, true, stopped),
        Settled::Done(PairStep::Rest, Some(OpenSkip::NotStarted))
    ));
    let out = Intent::Close {
        qty: d("1"),
        grid: 0,
        reason: CloseReason::HoldTimeout,
        round_trip_pct: Decimal::zero(),
    };
    assert!(matches!(
        go(&eye.balance, &out, false, stopped),
        Settled::Done(PairStep::Trade(Intent::Close { .. }, None), None)
    ));
}

#[test]
fn lost_means_are_frozen_again() {
    let mut eye = eye();
    let mut store = PositionStore::new();
    hold(&mut store, &eye.pair, "0.001");
    let slot = eye.pair.slot_key();
    let cap = eye.windows.cap() as u64;
    for i in 0..cap {
        assert!(!eye.windows.is_frozen(slot.as_str()));
        let step = eye.look(ON, &store, None, level(), level(), i * 10_000);
        assert!(matches!(step, LookStep::Wanted(..)), "{i} {step:?}");
    }
    assert!(eye.windows.is_frozen(slot.as_str()));
}

struct Rounds {
    cfg: AppConfig,
    pair: Pair,
    balance: BalanceCache,
    bound: KeyMap<Decimal>,
}

impl Rounds {
    fn look(
        &self,
        st: &mut BurstSlot,
        facts: BurstFacts,
        naked: bool,
        store: &PositionStore,
        books: (Option<Bbo>, Option<Bbo>),
        has_spread: bool,
    ) -> BurstLook {
        let buy = VenueId::named("lighter_rh");
        let sell = VenueId::named("lighter");
        let way = if has_spread { Some((&buy, &sell)) } else { None };
        look_at_burst(
            &self.cfg,
            st,
            facts,
            true,
            naked,
            None,
            &self.pair,
            store.get(self.pair.slot_key().as_str()),
            &self.balance,
            &self.bound,
            books.0.as_ref(),
            books.1.as_ref(),
            way,
            way,
            Decimal::zero(),
            secs(60),
            now(),
        )
        .unwrap()
    }
}

#[test]
fn rounds_go_from_look_to_order() {
    let mut cfg = cfg();
    cfg.burst = BurstConfig { enabled: true, open_repeats: 3 };
    let mut rounds = Rounds {
        cfg,
        pair: pair("BTC", "lighter", "lighter_rh"),
        balance: BalanceCache { by_venue: KeyMap::new(), last_refresh: now() },
        bound: KeyMap::new(),
    };
    let flat = PositionStore::new();
    let on = BurstFacts { enabled: true, busy: false, held: false };
    let off = BurstFacts { enabled: false, ..on };
    let books = || (level(), level());
    let mut st = BurstSlot::default();
    let step = rounds.look(&mut st, off, false, &flat, books(), true);
    assert!(matches!(step, BurstLook::Entered(BurstStep::Idle)));
    let step = rounds.look(&mut st, on, false, &flat, (level(), None), true);
    assert!(matches!(step, BurstLook::Blocked(BurstBlock::NoBook)));
    let step = rounds.look(&mut st, on, true, &flat, books(), true);
    assert!(matches!(step, BurstLook::Round(RoundStep::Naked)));
    let step = rounds.look(&mut st, on, false, &flat, books(), true);
    assert!(matches!(step, BurstLook::Round(RoundStep::NoCapacity)));
    assert!(!st.peak_capacity_checked);
    rounds.balance.by_venue.insert("lighter", d("1000"));
    rounds.balance.by_venue.insert("lighter_rh", d("1000"));
    let step = rounds.look(&mut st, on, false, &flat, books(), false);
    assert!(matches!(step, BurstLook::Round(RoundStep::NoSpread)));
    match rounds.look(&mut st, on, false, &flat, books(), true) {
        BurstLook::Place { is_open, buy, sell, qty } => {
            assert!(is_open);
            assert_eq!((buy.as_str(), sell.as_str()), ("lighter_rh", "lighter"));
            assert_eq!(qty, d("0.001"));
        }
        other => panic!("{other:?}"),
    }
    assert!(st.peak_capacity_checked);
    st.open_reps_done = 3;
    let step = rounds.look(&mut st, on, false, &flat, books(), true);
    assert!(matches!(step, BurstLook::Round(RoundStep::Rest)));
    assert_eq!(st.phase, BurstPhase::Cooldown);
    let step = rounds.look(&mut st, on, false, &flat, books(), true);
    assert!(matches!(step, BurstLook::Entered(BurstStep::Wait(60))));

    let mut store = PositionStore::new();
    hold(&mut store, &rounds.pair, "0.0004");
    st.phase = BurstPhase::Closing;
    st.wait_until = None;
    let held = BurstFacts { held: true, ..on };
    match rounds.look(&mut st, held, false, &store, books(), true) {
        BurstLook::Place { is_open, buy, qty, .. } => {
            assert!(!is_open);
            assert_eq!(buy.as_str(), "lighter");
            assert_eq!(qty, d("0.0004"));
        }
        other => panic!("{other:?}"),
    }
}

#[test]
fn rounds_wait_for_one_another() {
    let mut guard = InterventionGuard::new();
    let at = now();
    assert_eq!(round_gate(&mut guard, "BTC", true, None, true, at), RoundGate::InFlight);
    assert_eq!(
        round_gate(&mut guard, "BTC", false, None, true, at),
        RoundGate::Go { from: 0, to: 1 }
    );
    assert_eq!(
        round_gate(&mut guard, "BTC", false, Some(2), false, at),
        RoundGate::Go { from: 2, to: 1 }
    );
    assert_eq!(
        round_gate(&mut guard, "BTC", false, None, false, at),
        RoundGate::Go { from: 0, to: 0 }
    );
    guard.mark("BTC", Cause::OrphanOrder, "id=1", Some(2), at);
    assert_eq!(round_gate(&mut guard, "BTC", false, Some(2), false, at), RoundGate::Blocked);
    assert_eq!(
        round_gate(&mut guard, "BTC", false, Some(3), true, at),
        RoundGate::Go { from: 3, to: 4 }
    );
}

#[test]
fn orders_by_hand_are_small() {
    assert_eq!(command_of("market"), Some(Command::Place(OrderStyle::MarketTaker)));
    assert_eq!(command_of("limit"), Some(Command::Place(OrderStyle::LimitMaker)));
    assert_eq!(command_of("aggressive"), Some(Command::Place(OrderStyle::AggressiveLimit)));
    assert_eq!(command_of("account"), Some(Command::Account));
    assert_eq!(command_of("balance"), Some(Command::Balance));
    assert_eq!(command_of("positions"), Some(Command::Positions));
    assert_eq!(command_of("cancel"), Some(Command::Cancel));
    assert_eq!(command_of("recap"), Some(Command::Recap));
    assert_eq!(command_of("buy"), None);
    assert_eq!(cap_qty(d("0.01"), None, d("0.01")), Ok(()));
    assert_eq!(cap_qty(d("0.01"), None, d("0.02")), Err(d("0.01")));
    assert_eq!(cap_qty(d("0.01"), Some(" 0.5 "), d("0.5")), Ok(()));
    assert_eq!(cap_qty(d("0.01"), Some("many"), d("0.5")), Err(d("0.01")));
    let mut markets = vec![market("lighter", "BTC"), market("lighter", "ETH")];
    markets[1].raw_symbol = "ETH-USD".into();
    assert_eq!(find_market(&markets, "eth", true), Some(1));
    assert_eq!(find_market(&markets, "eth-usd", true), Some(1));
    assert_eq!(find_market(&markets, "eth-usd", false), None);
}

#[test]
fn rows_show_the_window_and_the_step() {
    let mut eye = eye();
    let slot = eye.pair.slot_key();
    let net = NetSpread {
        buy: VenueId::named("lighter_rh"),
        sell: VenueId::named("lighter"),
        raw_pct: d("0.5"),
        fee_pct: d("0.01"),
        slip_pct: Decimal::zero(),
        net_pct: d("0.49"),
    };
    let ask = |eye: &Eye, store: &PositionStore| {
        figures(
            &eye.cfg,
            &eye.windows,
            &eye.spreads,
            &eye.pair,
            &net,
            d("0.002"),
            store.get(eye.pair.slot_key().as_str()),
            residual(true, Some(d("0.1234567")), net.net_pct),
            None,
        )
        .unwrap()
    };
    let flat = PositionStore::new();
    eye.windows.observe(slot.as_str(), 0, d("0.1"));
    let row = ask(&eye, &flat);
    assert!(matches!(row.centre, Centre::Sampling { n: 1, cap: 5 }));
    assert_eq!(row.dev_pct, None);
    assert_eq!(row.res_pct, d("0.123457"));
    assert_eq!((row.grid.as_str(), row.target_qty), ("0", d("0.002")));
    for i in 1..5u64 {
        eye.windows.observe(slot.as_str(), i * 10_000, d("0.1"));
    }
    eye.windows.observe(slot.as_str(), 50_000, d("0.6"));
    let mut store = PositionStore::new();
    hold(&mut store, &eye.pair, "0.5");
    let row = ask(&eye, &store);
    match row.centre {
        Centre::Known(mu) => assert_eq!(mu, d("0.2")),
        other => panic!("{other:?}"),
    }
    assert_eq!(row.dev_pct, Some(d("0.4")));
    assert_eq!((row.grid.as_str(), row.target_qty), ("+1", d("0.001")));
    assert_eq!(row.actual_qty, d("0.5"));
    assert_eq!(residual(false, Some(d("1")), d("0.49")), d("0.49"));
    assert_eq!(residual(true, None, d("0.49")), d("0.49"));
}

#[test]
fn scan_samples_and_chooses_anew() {
    let cfg = cfg();
    let btc = pair("BTC", "lighter", "sodex");
    let eth = pair("ETH", "lighter", "sodex");
    let mut books = both_books(&btc);
    let mut engine = ScanEngine::new(10, 1000);
    let mut scan = ScanState::new();
    let venues = vec!["lighter".to_string(), "sodex".to_string()];
    scan.start(&mut engine, &venues).unwrap();
    scan.matched(2, vec![btc.clone(), eth.clone()]).unwrap();
    scan.coarse_done(vec![btc.clone()], now());
    for i in 0..9u64 {
        scan.sample(&mut engine, &books, 3000, i * 1000, now()).unwrap();
        assert_eq!(scan.phase, ScanPhase::Sampling, "{i}");
    }
    scan.sample(&mut engine, &books, 3000, 9_000, now()).unwrap();
    assert_eq!(scan.phase, ScanPhase::Live);

    let rows = vec![];
    assert!(!scan.refresh(&mut engine, &cfg, &rows, &books, now()).unwrap());
    assert_eq!(scan.last_coarse_at, Some(now()));
    for leg in &eth.legs {
        books.put(leg.venue.as_str(), eth.pair_id.as_str(), book("100", "100.02"));
    }
    assert!(scan.refresh(&mut engine, &cfg, &rows, &books, now()).unwrap());
    assert_eq!(scan.candidates.len(), 2);
    assert!(engine.is_filled(&btc));
    let none = new_books();
    assert!(!scan.refresh(&mut engine, &cfg, &rows, &none, now()).unwrap());
    assert_eq!(scan.candidates.len(), 2);
}

#[test]
fn resting_orders_have_their_time() {
    let mut cfg = cfg();
    let since = now();
    // Three rounds of two seconds and one to cancel, and four minutes.
    let late = since.after(Duration::from_millis(249_001));
    let ask = |cancelling: bool, burst: bool, holds: Option<bool>, at: Instant| {
        watch_one_pending(&cfg, since, cancelling, burst, true, holds, at)
    };
    let (step, word) = ask(false, false, Some(true), since.after(Duration::from_millis(249_000)));
    assert!(!step.cancel && !step.alarm);
    assert_eq!(word, "挂单中");
    let (step, word) = ask(false, true, None, late);
    assert!(step.cancel && step.alarm && !step.gone);
    assert_eq!(word, "撤单中");
    let (step, word) = ask(false, true, Some(false), since);
    assert!(!step.cancel);
    assert_eq!(word, "Burst挂单");
    let (step, _) = ask(false, false, Some(false), since);
    assert!(step.cancel && step.gone);
    let (step, _) = ask(true, false, Some(false), late);
    assert!(step.cancel && !step.alarm && !step.gone);
    let btc = pair("BTC", "lighter", "lighter_rh");
    cfg.grid.step_hysteresis = d("0.5");
    let step = cfg.grid_for("BTC", "lighter", "lighter_rh", btc.min_qty()).unwrap().unwrap().step;
    assert!(step.is_positive());
    assert_eq!(resting_floor(&cfg, &btc).unwrap(), step.times(d("0.5")).unwrap());
    let other = pair("DOGE", "lighter", "lighter_rh");
    assert_eq!(resting_floor(&cfg, &other).unwrap(), Decimal::zero());
}

fn steps_of(base_qty: &str) -> GridParams {
    GridParams {
        step: d("0.02"),
        max_segments: 3,
        persistence: secs(0),
        persistence_min_hits: 0,
        base_qty: d(base_qty),
        split_order_size: Decimal::zero(),
        min_qty: d("0.001"),
    }
}

#[test]
fn orders_are_handed_over() {
    let btc = pair("BTC", "lighter", "sodex");
    let slot = btc.slot_key();
    let mut cfg = cfg();
    cfg.live_test.dex_test_mode = false;
    let mut store = PositionStore::new();
    let mut placing = KeySet::new();
    let params = steps_of("0.01");
    let intent = Intent::Open {
        qty: d("0.01"),
        buy: VenueId::named("sodex"),
        sell: VenueId::named("lighter"),
        grid: 1,
    };
    assert!(capped_outcome(&cfg, None, &intent, &params).unwrap().is_none());
    let o = hand_over(
        &cfg, &btc, None, &intent, &params, d("0.05"), d("0.06"), 9, &mut store, &mut placing,
    )
    .unwrap();
    assert_eq!(o.style, OrderStyle::MarketTaker);
    assert_eq!((o.first.style, o.second.style), (o.style, o.style));
    assert_eq!((o.first.venue.as_str(), o.first.is_buy), ("sodex", true));
    assert_eq!((o.second.venue.as_str(), o.second.is_buy), ("lighter", false));
    assert_eq!((o.grid_from, o.grid_to, o.is_open), (0, 1, true));
    assert_eq!((o.qty, o.base_qty), (d("0.01"), d("0.01")));
    assert_eq!((o.decision_net_pct, o.decision_raw_pct), (d("0.05"), d("0.06")));
    assert!(placing.contains(slot.as_str()) && store.is_pending(slot.as_str()));

    let mut store = PositionStore::new();
    hold(&mut store, &btc, "0.5");
    let pos = store.get(slot.as_str()).unwrap().clone();
    cfg.live_test.dex_test_mode = true;
    cfg.live_test.max_qty = d("0.1");
    let close = Intent::Close {
        qty: d("0.5"),
        grid: 0,
        reason: CloseReason::GridReduce,
        round_trip_pct: Decimal::zero(),
    };
    let (after, base) =
        capped_outcome(&cfg, Some(&pos), &close, &params).unwrap().unwrap();
    assert_eq!((after, base), (d("0.4"), pos.base_qty));
    let mut placing = KeySet::new();
    let zero = Decimal::zero();
    let o = hand_over(
        &cfg, &btc, Some(&pos), &close, &params, zero, zero, 1, &mut store, &mut placing,
    )
    .unwrap();
    assert_eq!((o.qty, o.grid_to, o.is_open), (d("0.1"), 1, false));
    assert_eq!((o.buy, o.sell), (pos.sell.clone(), pos.buy.clone()));
    assert!(o.base_qty.is_zero() && !store.is_pending(slot.as_str()));
    assert!(placing.contains(slot.as_str()));

    let mut placing = KeySet::new();
    let mut pending = KeySet::new();
    let (a, b) = (VenueId::named("lighter"), VenueId::named("sodex"));
    let o = hand_over_round(
        &btc, &a, &b, d("0.02"), true, 1, 2, zero, zero, &mut store, &mut placing, &mut pending,
    )
    .unwrap();
    assert_eq!((o.first.style, o.second.style), (OrderStyle::LimitMaker, OrderStyle::MarketTaker));
    assert_eq!((o.buy.as_str(), o.sell.as_str()), ("lighter", "sodex"));
    assert_eq!((o.base_qty, o.grid_from, o.grid_to), (d("0.02"), 1, 2));
    assert!(placing.contains(slot.as_str()) && pending.contains(slot.as_str()));
    assert!(store.is_pending(slot.as_str()));

    let mut placing = KeySet::new();
    assert!(hand_over(
        &cfg, &btc, None, &close, &params, zero, zero, 0, &mut store, &mut placing,
    )
    .is_none());
    assert!(placing.is_empty());
}

#[test]
fn page_is_put_together() {
    let btc = pair("BTC", "lighter", "sodex");
    let cfg = cfg();
    let mut control = ArbitrageControl::new(&cfg);
    control.params.active_venues = vec!["lighter".into()];
    control.enabled = true;
    control.scan_running = false;
    let mut rows = KeyMap::new();
    rows.insert("b", row("ETH-USD-PERP", "lighter", "sodex", "+0.1%"));
    rows.insert("a", row("BTC-USD-PERP", "sodex", "lighter", "0.3%"));
    let mut store = PositionStore::new();
    hold(&mut store, &btc, "0.5");
    let mut spreads = VenueSpreadBook::new(2, 1000);
    spreads.observe("lighter", 0, d("0.0125"));
    let mut volume = KeyMap::new();
    volume.insert("lighter", d("12.345"));
    let naked = vec![naked("sodex", "1", NakedSource::Foreign)];
    let s = live_snapshot(
        &cfg,
        Some(&control),
        &rows,
        &store,
        &accounts(vec![account("lighter", &[("BTC", "0.5")], true)]),
        &BalanceCache { by_venue: KeyMap::new(), last_refresh: now() },
        &spreads,
        &volume,
        &KeyMap::new(),
        &naked,
        &new_books(),
        &vec![btc],
        true,
        &ScanState::default(),
        &ScanEngine::new(4, 1000),
        Vec::new(),
    )
    .unwrap();
    assert_eq!(s.pairs[0].pair_id, "BTC-USD-PERP");
    assert_eq!((s.matched_pairs, s.open_positions), (2, 1));
    assert_eq!(s.best_net, Some(d("0.3")));
    assert_eq!(s.venue_stats.len(), 1);
    assert_eq!(s.venue_stats[0].spread_mu, "1/2");
    assert_eq!(s.venue_stats[0].volume, "12.34");
    assert_eq!(s.venue_stats[0].place_rtt, "—");
    assert_eq!(s.naked_exposures[0].source, "foreign");
    assert_eq!(s.exchange_positions.len(), 1);
    assert_eq!(s.positions[0].qty, "0.5");
    assert!(s.arbitrage_enabled && s.matching && !s.scan_running);
    assert_eq!(s.scan.summary.status, ScanPhase::Idle);
    assert_eq!(s.available.len(), 1);
}

#[test]
fn fees_and_waits_come_from_the_settings() {
    let mut c = cfg();
    c.venue_fees.insert("x", fees("0.01", "0.02"));
    assert_eq!(c.maker_fee(&VenueId::named("x")), d("0.01"));
    assert_eq!(c.maker_fee(&VenueId::named("nowhere")), d("0"));
    c.order.ioc_fill_wait_ms = 1;
    assert_eq!(c.order.ioc_fill_wait(), Duration::from_millis(100));
    assert!(OrderStyle::MarketTaker.is_ioc() && !OrderStyle::LimitMaker.is_ioc());
}
