use dex_arbitr::app::burst::{
    burst_enter, burst_status, close_round, grid_after_round, on_round_failed, on_round_filled,
    open_round, peak_qty, BurstFacts, BurstPhase, BurstSlot, BurstStep, OpenRound, PauseKind,
    RoundStep,
};
use dex_arbitr::app::exec_worker::{next_slice, refresh_period};
use dex_arbitr::app::intervention::{Cause, InterventionGuard};
use dex_arbitr::app::outcome::{
    apply_fill, bump_session_volume, fail_kind, on_burst_run_plan, on_failed, on_filled,
    on_run_plan, qty_from_exec_err, realized_entry_raw, streak_is_long, take_effects, Effects, Ended, FailKind,
    Fill,
};
use dex_arbitr::app::pair_step::{
    books_for_direction, capped_qty, enter, fmt_step, inflight_label, intent_label, is_listed,
    last_gate, note_dust, permit, qty_after, read_books, skip_reason_label, ui_intent_label,
    watch_pending, BookStep, EntryFacts, EntryStep, GateFacts, OpenFacts, OpenSkip, PairStep,
    WatchFacts,
};
use dex_arbitr::app::positions::PositionStore;
use dex_arbitr::app::probe::{bought, sold, start, ProbeStep};
use dex_arbitr::app::reconcile::NakedExposure;
use dex_arbitr::app::window_spread::WindowBook;
use dex_arbitr::clock::{Duration, Instant};
use dex_arbitr::decimal::Decimal;
use dex_arbitr::domain::{Bbo, CloseReason, Intent, VenueId, WindowGridEngine};
use dex_arbitr::keymap::{KeyMap, KeySet};

fn d(text: &str) -> Decimal {
    Decimal::parse(text).unwrap()
}

fn now() -> Instant {
    Instant::from_millis(1_000_000_000)
}

fn secs(n: u64) -> Duration {
    Duration::from_secs(n)
}

fn book(bid: &str, ask: &str) -> Bbo {
    Bbo {
        bid: d(bid),
        ask: d(ask),
        bid_qty: d("1"),
        ask_qty: d("1"),
        bids: vec![(d(bid), d("1"))],
        asks: vec![(d(ask), d("1"))],
        ts: now(),
    }
}

fn off() -> EntryFacts {
    EntryFacts {
        enabled: false,
        burst: false,
        pending: false,
        hedging: false,
        held: false,
        chosen: true,
    }
}

#[test]
fn slots_that_live_are_looked_at_when_trading_is_off() {
    assert_eq!(enter(off()), EntryStep::Idle);
    assert_eq!(enter(EntryFacts { held: true, ..off() }), EntryStep::Go);
    assert_eq!(enter(EntryFacts { pending: true, ..off() }), EntryStep::Watch);
    assert_eq!(enter(EntryFacts { hedging: true, ..off() }), EntryStep::Paint);
    let on = EntryFacts { enabled: true, ..off() };
    assert_eq!(enter(on), EntryStep::Go);
    assert_eq!(enter(EntryFacts { burst: true, ..on }), EntryStep::Burst);
    assert_eq!(enter(EntryFacts { chosen: false, ..on }), EntryStep::NotChosen);
    assert_eq!(enter(EntryFacts { chosen: false, held: true, ..on }), EntryStep::Go);
}

#[test]
fn books_are_read_before_anything_else() {
    let a = book("100", "102");
    let b = book("200", "202");
    assert!(matches!(read_books(None, None).unwrap(), BookStep::NoBooks));
    assert!(matches!(read_books(None, Some(&b)).unwrap(), BookStep::NoLeft));
    assert!(matches!(read_books(Some(&a), None).unwrap(), BookStep::NoRight));
    match read_books(Some(&a), Some(&b)).unwrap() {
        BookStep::Ready(mid) => assert_eq!(mid, d("151")),
        other => panic!("{other:?}"),
    }
    let v = VenueId::named("lighter");
    let (buy, sell) = books_for_direction(&v, &v, &a, &b);
    assert_eq!((buy.bid, sell.bid), (d("100"), d("200")));
    let (buy, _) = books_for_direction(&VenueId::named("sodex"), &v, &a, &b);
    assert_eq!(buy.bid, d("200"));
    assert!(is_listed(&vec!["a".into(), "b".into()], "b"));
    assert!(!is_listed(&vec!["a".into()], "b"));
}

fn open(qty: &str) -> Intent {
    Intent::Open {
        qty: d(qty),
        buy: VenueId::named("lighter"),
        sell: VenueId::named("sodex"),
        grid: 1,
    }
}

fn close(qty: &str) -> Intent {
    Intent::Close {
        qty: d(qty),
        grid: 0,
        reason: CloseReason::GridReduce,
        round_trip_pct: Decimal::zero(),
    }
}

#[test]
fn opening_needs_leave_and_closing_does_not() {
    let all = OpenFacts { enabled: true, naked: false, keys_ready: true };
    assert!(matches!(permit(open("1"), all), (Intent::Open { .. }, None)));
    assert!(matches!(
        permit(open("1"), OpenFacts { enabled: false, ..all }),
        (Intent::Hold, Some(OpenSkip::NotStarted))
    ));
    assert!(matches!(
        permit(open("1"), OpenFacts { naked: true, ..all }),
        (Intent::Hold, Some(OpenSkip::NakedExposure))
    ));
    assert!(matches!(
        permit(open("1"), OpenFacts { keys_ready: false, ..all }),
        (Intent::Hold, Some(OpenSkip::KeysMissing))
    ));
    let none = OpenFacts { enabled: false, naked: true, keys_ready: true };
    assert!(matches!(permit(close("1"), none), (Intent::Close { .. }, None)));
}

#[test]
fn waiting_pairs_trade_nothing() {
    let facts = GateFacts {
        is_pending: false,
        in_flight: false,
        grid: Some(1),
        flatten: None,
        view: None,
    };
    let mut guard = InterventionGuard::new();
    assert!(matches!(
        last_gate(&mut guard, "BTC", open("1"), facts, now()).unwrap(),
        PairStep::Trade(Intent::Open { .. }, None)
    ));
    assert!(matches!(
        last_gate(&mut guard, "BTC", Intent::Hold, facts, now()).unwrap(),
        PairStep::Rest
    ));
    let busy = GateFacts { in_flight: true, ..facts };
    assert!(matches!(
        last_gate(&mut guard, "BTC", open("1"), busy, now()).unwrap(),
        PairStep::Queue
    ));
    guard.mark("BTC", Cause::OrphanOrder, "id=1", Some(1), now());
    assert!(matches!(
        last_gate(&mut guard, "BTC", open("1"), facts, now()).unwrap(),
        PairStep::Blocked
    ));
}

#[test]
fn quantities_are_capped_in_test_mode_only() {
    assert_eq!(capped_qty(true, d("0.01"), d("1")), d("0.01"));
    assert_eq!(capped_qty(false, d("0.01"), d("1")), d("1"));
    assert_eq!(qty_after(d("1"), d("0.4"), true).unwrap(), d("1.4"));
    assert_eq!(qty_after(d("1"), d("0.4"), false).unwrap(), d("0.6"));
    assert_eq!(qty_after(d("1"), d("4"), false).unwrap(), Decimal::zero());
}

#[test]
fn dust_is_reported_after_a_while() {
    let mut since = KeyMap::new();
    assert!(!note_dust(&mut since, "s", Some(d("0.1")), d("1"), now()));
    assert!(!note_dust(&mut since, "s", Some(d("0.1")), d("1"), now().after(secs(300))));
    assert!(note_dust(&mut since, "s", Some(d("0.1")), d("1"), now().after(secs(301))));
    assert!(!note_dust(&mut since, "s", Some(d("2")), d("1"), now().after(secs(400))));
    assert!(since.is_empty());
}

#[test]
fn resting_orders_are_withdrawn_when_the_spread_goes() {
    let calm = WatchFacts {
        overdue: false,
        cancelling: false,
        burst: false,
        is_open: true,
        spread_holds: Some(true),
    };
    assert!(!watch_pending(calm).cancel);
    let lost = watch_pending(WatchFacts { spread_holds: Some(false), ..calm });
    assert!(lost.cancel && lost.gone && !lost.alarm);
    let closing = WatchFacts { is_open: false, spread_holds: Some(false), ..calm };
    assert!(!watch_pending(closing).cancel);
    let late = watch_pending(WatchFacts { overdue: true, ..calm });
    assert!(late.cancel && late.alarm);
}

#[test]
fn words_of_a_row() {
    assert_eq!(fmt_step(2), "+2");
    assert_eq!(fmt_step(0), "0");
    assert_eq!(fmt_step(-3), "-3");
    assert_eq!(intent_label(&open("1")), "open");
    assert_ne!(ui_intent_label(&open("1")), ui_intent_label(&close("1")));
    assert_eq!(skip_reason_label("no_margin"), "保证金不足");
    assert_eq!(skip_reason_label("no_mid"), "无中价");
    assert_eq!(skip_reason_label("else"), "else");
    assert_eq!(inflight_label(true, false), "开仓中");
    assert_eq!(inflight_label(false, true), "平仓中");
    assert_eq!(inflight_label(false, false), "下单中");
}

#[test]
fn failures_are_told_apart() {
    assert_eq!(fail_kind("EMERGENCY_CLOSED qty=1"), FailKind::EmergencyClosed);
    assert_eq!(fail_kind("SECOND_LEG_UNKNOWN"), FailKind::SecondLegUnknown);
    assert_eq!(fail_kind("NAKED_FIRST_LEG Close Failed"), FailKind::EmergencyCloseFailed);
    assert_eq!(fail_kind("NAKED_FIRST_LEG"), FailKind::NakedFirstLeg);
    assert_eq!(fail_kind("QUOTE_LOST_RACE"), FailKind::QuoteLostRace);
    assert_eq!(fail_kind("ARB_STOPPED"), FailKind::Stopped);
    assert_eq!(fail_kind("limit_zero_fill: none"), FailKind::ZeroFill);
    assert_eq!(fail_kind("timeout"), FailKind::Other);
    assert_eq!(qty_from_exec_err("x unhedged=0.5; qty=2", d("9")), d("0.5"));
    assert_eq!(qty_from_exec_err("x unhedged=0, qty=2)", d("9")), d("2"));
    assert_eq!(qty_from_exec_err("nothing", d("9")), d("9"));
}

#[test]
fn unknown_legs_wait() {
    let e = on_failed("SECOND_LEG_UNKNOWN qty=0.3", d("1"));
    assert_eq!(e.wait, Some(Cause::SecondLegUnknown));
    assert_eq!(e.unknown_qty, Some(d("0.3")));
    assert!(!e.fill);
    let e = on_failed("NAKED_FIRST_LEG; ORPHAN_ORDER", d("1"));
    assert_eq!(e.naked_qty, Some(d("1")));
    assert!(e.orphan);
    let e = on_filled(d("1"), d("0.2"), false);
    assert!(e.fill && e.clear_streak);
    assert_eq!(e.naked_qty, Some(d("0.2")));
    assert!(!on_filled(Decimal::zero(), Decimal::zero(), false).fill);
    assert!(streak_is_long(3) && !streak_is_long(2));
}

#[test]
fn entry_is_what_was_paid() {
    assert_eq!(realized_entry_raw(true, d("100"), d("101"), d("9")).unwrap(), d("1"));
    assert_eq!(realized_entry_raw(false, d("101"), d("100"), d("9")).unwrap(), d("1"));
    assert_eq!(realized_entry_raw(true, Decimal::zero(), d("101"), d("9")).unwrap(), d("9"));
    let mut volume = KeyMap::new();
    bump_session_volume(&mut volume, "sodex", d("2"), d("10")).unwrap();
    bump_session_volume(&mut volume, "sodex", d("-1"), d("10")).unwrap();
    assert_eq!(volume.get("sodex").copied(), Some(d("20")));
}

const SLOT: &str = "BTC-USD-PERP|lighter|sodex";

fn fill(qty: &str, is_open: bool, grid_to: i32) -> Fill {
    Fill {
        slot: SLOT.into(),
        pair_id: "BTC-USD-PERP".into(),
        buy: VenueId::named("lighter"),
        sell: VenueId::named("sodex"),
        qty: d(qty),
        is_open,
        grid_to,
        base_qty: d("0.01"),
        mid: d("100"),
        entry_net: d("0.05"),
        entry_raw: d("0.06"),
        buy_px: d("100"),
        sell_px: d("100.1"),
    }
}

#[test]
fn fills_open_and_close_a_position() {
    let mut positions = PositionStore::new();
    let mut windows = WindowBook::new(2, 1000);
    let mut flat = KeyMap::new();
    let slot = SLOT;
    apply_fill(&mut positions, &mut windows, &mut flat, &fill("0.01", true, 1), now()).unwrap();
    let p = positions.get(slot).unwrap();
    assert_eq!(p.qty, d("0.01"));
    assert_eq!(p.grid, 1);
    assert_eq!(p.entry_notional_usdc, d("1"));
    apply_fill(&mut positions, &mut windows, &mut flat, &fill("0.01", false, 0), now()).unwrap();
    assert_eq!(positions.open_count(), 0);
    assert!(flat.contains(slot));
}

/// The state that the end of an order changes, with an order of `SLOT` under way.
struct Desk {
    positions: PositionStore,
    windows: WindowBook,
    flat: KeyMap<Instant>,
    engine: WindowGridEngine,
    placing: KeySet,
    pending: KeySet,
}

fn desk() -> Desk {
    let mut positions = PositionStore::new();
    positions.reserve_open(SLOT);
    let mut placing = KeySet::new();
    placing.insert(SLOT, ());
    placing.insert("other", ());
    let mut pending = KeySet::new();
    pending.insert(SLOT, ());
    Desk {
        positions,
        windows: WindowBook::new(2, 1000),
        flat: KeyMap::new(),
        engine: WindowGridEngine::default(),
        placing,
        pending,
    }
}

fn end(x: &mut Desk, enabled: bool, known: bool, ended: Ended) -> Effects {
    on_run_plan(
        enabled,
        known,
        SLOT,
        ended,
        d("1"),
        &mut x.positions,
        &mut x.windows,
        &mut x.flat,
        &mut x.engine,
        &mut x.placing,
        &mut x.pending,
        now(),
    )
    .unwrap()
}

#[test]
fn every_end_frees_the_slot() {
    let whole = fill("0.01", true, 1);
    let none = fill("0", true, 1);
    let lacks = Decimal::zero();
    let cases = [
        (true, true, Ended::Filled(&whole, lacks, false), true),
        (true, true, Ended::Filled(&none, lacks, false), false),
        (true, true, Ended::Failed("NAKED_FIRST_LEG qty=0.01"), false),
        (false, true, Ended::Filled(&whole, lacks, false), false),
        (true, false, Ended::Filled(&whole, lacks, true), false),
        (true, false, Ended::Failed("SECOND_LEG_UNKNOWN"), false),
    ];
    for (enabled, known, ended, books) in cases {
        let mut x = desk();
        let e = end(&mut x, enabled, known, ended);
        assert!(!x.placing.contains(SLOT) && x.placing.contains("other"));
        assert!(!x.pending.contains(SLOT));
        assert!(!x.positions.is_pending(SLOT));
        assert_eq!(x.positions.get(SLOT).is_some(), books);
        assert_eq!(e.fill, books);
        if !enabled || !known {
            assert!(!e.orphan && e.wait.is_none() && e.naked_qty.is_none());
        }
    }
}

#[test]
fn every_round_frees_its_slot() {
    let whole = fill("0.01", true, 1);
    let lacks = Decimal::zero();
    let cases = [
        (true, Ended::Filled(&whole, lacks, false), Some(1), false),
        (false, Ended::Filled(&whole, lacks, false), None, false),
        (true, Ended::Failed("BURST_ZERO_FILL: none"), Some(0), true),
        (true, Ended::Failed("timeout"), None, false),
    ];
    for (enabled, ended, reps, stops) in cases {
        let mut x = desk();
        let mut rounds = KeyMap::new();
        let mut guard = InterventionGuard::new();
        let stopped = on_burst_run_plan(
            enabled,
            true,
            SLOT,
            "BTC-USD-PERP",
            ended,
            secs(5),
            &mut rounds,
            &mut x.positions,
            &mut x.windows,
            &mut x.flat,
            &mut x.engine,
            &mut x.placing,
            &mut x.pending,
            &mut guard,
            now(),
        )
        .unwrap();
        assert_eq!(stopped, stops);
        assert!(!x.placing.contains(SLOT) && !x.pending.contains(SLOT));
        assert!(!x.positions.is_pending(SLOT));
        assert_eq!(rounds.get(SLOT).map(|s| s.open_reps_done), reps);
        assert_eq!(guard.is_waiting("BTC-USD-PERP"), stops);
        if stops {
            let detail = &guard.state("BTC-USD-PERP").unwrap().detail;
            assert_eq!(detail, "burst stopped: BURST_ZERO_FILL: none");
        }
    }
}

fn take(e: Effects, err: &str, order: Option<&str>) -> (Vec<NakedExposure>, InterventionGuard) {
    let mut naked = Vec::new();
    let mut guard = InterventionGuard::new();
    let pair = "BTC-USD-PERP";
    take_effects(
        e, pair, "lighter", "sodex", true, err, order, Some(1), &mut naked, &mut guard, now(),
    );
    (naked, guard)
}

#[test]
fn ends_leave_their_marks() {
    let err = "NAKED_FIRST_LEG qty=0.3";
    let (naked, guard) = take(on_failed(err, d("1")), err, None);
    assert_eq!(naked.len(), 1);
    assert_eq!((naked[0].venue.as_str(), naked[0].qty), ("lighter", d("0.3")));
    let w = guard.state("BTC-USD-PERP").unwrap();
    assert_eq!(w.cause, Cause::NakedLegUnrecoverable);
    assert_eq!(w.detail, "naked leg on lighter (NAKED_FIRST_LEG qty=0.3)");

    let err = "SECOND_LEG_UNKNOWN qty=0.2";
    let (naked, guard) = take(on_failed(err, d("1")), err, None);
    assert_eq!(naked.len(), 2);
    assert_eq!((naked[1].venue.as_str(), naked[1].qty), ("sodex", d("-0.2")));
    let w = guard.state("BTC-USD-PERP").unwrap();
    assert_eq!(w.detail, "dual-market fill unverifiable; check both venues before resuming");

    let (naked, guard) = take(on_filled(d("1"), d("0.1"), true), "", Some("77"));
    assert_eq!(naked[0].qty, d("0.1"));
    let w = guard.state("BTC-USD-PERP").unwrap();
    assert_eq!(w.detail, "hedge ok but order 77 on lighter could not be canceled");

    let (naked, guard) = take(on_failed("EMERGENCY_CLOSED", d("1")), "EMERGENCY_CLOSED", None);
    assert!(naked.is_empty() && !guard.is_waiting("BTC-USD-PERP"));
    assert_eq!(guard.streak("BTC-USD-PERP"), 1);
}

#[test]
fn third_single_leg_waits() {
    let mut naked = Vec::new();
    let mut guard = InterventionGuard::new();
    for n in 1..=3 {
        let e = on_failed("EMERGENCY_CLOSED", d("1"));
        take_effects(
            e, "P", "a", "b", true, "EMERGENCY_CLOSED", None, None, &mut naked, &mut guard, now(),
        );
        assert_eq!(guard.is_waiting("P"), n == 3);
    }
    assert_eq!(
        guard.state("P").unwrap().detail,
        "3 consecutive single-leg fills (all recovered, but link looks broken)"
    );
}

fn fresh() -> BurstSlot {
    BurstSlot::default()
}

#[test]
fn bursts_open_rest_and_close() {
    let on = BurstFacts { enabled: true, busy: false, held: true };
    let go = OpenRound {
        held: true,
        naked: false,
        chosen: true,
        refused: false,
        has_spread: true,
        tradable: true,
    };
    let mut st = fresh();
    for _ in 0..2 {
        let (next, step) = open_round(st, go, 2, now(), secs(60));
        assert_eq!(step, RoundStep::Place);
        st = on_round_filled(next, true, now(), secs(5));
        assert_eq!(st.pause_kind, Some(PauseKind::AfterOpenRep));
        assert_eq!(burst_enter(st, on, 2, now(), secs(60)).1, BurstStep::Wait(5));
        st = burst_enter(st, on, 2, now().after(secs(5)), secs(60)).0;
    }
    assert_eq!(st.phase, BurstPhase::Cooldown);
    assert_eq!(burst_enter(st, on, 2, now().after(secs(6)), secs(60)).1, BurstStep::Wait(59));
    let (st, step) = burst_enter(st, on, 2, now().after(secs(65)), secs(60));
    assert_eq!((st.phase, step), (BurstPhase::Closing, BurstStep::Go));
    let (_, qty) = close_round(st, d("0.01"), d("0.004"), now(), secs(60));
    assert_eq!(qty, Some(d("0.004")));
    let (st, qty) = close_round(st, d("0.01"), Decimal::zero(), now(), secs(60));
    assert_eq!((st.phase, qty), (BurstPhase::Cooldown, None));
}

#[test]
fn stopped_bursts_stay() {
    let (st, look) = on_round_failed(fresh(), "BURST_HEDGE_FAILED: x");
    assert!(look);
    let on = BurstFacts { enabled: true, busy: false, held: true };
    let (st, step) = burst_enter(st, on, 2, now(), secs(60));
    assert_eq!((st.phase, step), (BurstPhase::Stopped, BurstStep::Stopped));
    assert!(!on_round_failed(fresh(), "limit_zero_fill").1);
    assert_eq!(burst_status(st, 2, "等"), "等 · 停止");
    assert_eq!(burst_status(fresh(), 2, "等"), "等 · 开 0/2");
    assert_eq!(peak_qty(d("0.5"), 3).unwrap(), d("1.5"));
    assert_eq!(grid_after_round(0, true), 1);
    assert_eq!(grid_after_round(0, false), 0);
}

#[test]
fn rounds_are_refused_for_a_reason() {
    let go = OpenRound {
        held: false,
        naked: false,
        chosen: true,
        refused: false,
        has_spread: true,
        tradable: true,
    };
    let step = |f: OpenRound| open_round(fresh(), f, 2, now(), secs(60)).1;
    assert_eq!(step(OpenRound { naked: true, ..go }), RoundStep::Naked);
    assert_eq!(step(OpenRound { chosen: false, ..go }), RoundStep::NotChosen);
    assert_eq!(step(OpenRound { refused: true, ..go }), RoundStep::NoCapacity);
    assert_eq!(step(OpenRound { has_spread: false, ..go }), RoundStep::NoSpread);
    assert_eq!(step(OpenRound { tradable: false, ..go }), RoundStep::Thin);
    assert_eq!(open_round(fresh(), go, 0, now(), secs(60)).1, RoundStep::Rest);
}

#[test]
fn probes_sell_what_they_bought() {
    let p = start("sodex", d("0.01"));
    assert!(matches!(p.step, ProbeStep::Buy(q) if q == d("0.01")));
    let p = bought(p, Ok(d("0.01")));
    assert!(p.outcome.success);
    let p = sold(p, d("0.01"), 1, Err(()));
    assert!(matches!(p.step, ProbeStep::Sell(_, 2)));
    let p = sold(p, d("0.01"), 2, Ok(d("0.01")));
    assert!(matches!(p.step, ProbeStep::Finish));
    assert_eq!(p.outcome.detail, "probe ok; opened 0.01 closed 0.01");
    assert_eq!(p.outcome.naked_qty, None);
}

#[test]
fn probes_tell_what_stands_open() {
    let p = bought(start("sodex", d("0.01")), Ok(d("0.01")));
    let p = sold(sold(p, d("0.01"), 1, Err(())), d("0.01"), 2, Err(()));
    let p = sold(p, d("0.01"), 3, Err(()));
    assert!(p.outcome.success);
    assert_eq!(p.outcome.naked_qty, Some(d("0.01")));
    let refused = bought(start("sodex", d("0.01")), Err("code=21740"));
    assert!(!refused.outcome.success);
    assert_eq!(refused.outcome.detail, "probe open failed: code=21740");
    let unknown = start("sodex", Decimal::zero());
    assert!(matches!(unknown.step, ProbeStep::Finish));
}

#[test]
fn accounts_are_asked_for_in_time() {
    assert_eq!(refresh_period(0), secs(1));
    assert_eq!(refresh_period(60), secs(60));
    assert_eq!(next_slice(secs(60), secs(60), secs(1)), Some(Duration::from_millis(200)));
    assert_eq!(
        next_slice(secs(60), secs(60), Duration::from_millis(59_950)),
        Some(Duration::from_millis(50))
    );
    assert_eq!(next_slice(secs(60), secs(60), secs(60)), None);
    assert_eq!(next_slice(secs(60), secs(30), secs(1)), None);
}
