//! The page as a whole: what trading and the scan show at one moment.

use crate::app::balance::{BalanceCache, VenueAccountCache};
use crate::app::control::ArbitrageControl;
use crate::app::positions::{held_list, names_all, open_slots, PositionStore};
use crate::app::reconcile::{naked_model, NakedExposure, NakedModel};
use crate::app::runtime::{arbitrage_enabled, scan_is_running};
use crate::app::scan::{ScanEngine, ScanModel, ScanPhase, ScanRow};
use crate::app::scan_state::ScanState;
use crate::app::snapshot::{
    all_rows, available_pairs_payload, balance_of, balance_rows, bases, best_net, choice_of,
    exchange_position_rows, held_models, match_models, matches_up_to, naked_source_text,
    position_rows, scan_summary, shown_net, shows_coin, shows_position, sorted_rows, source_word,
    spread_text, spread_words, summary_of, venue_match_rows, volume_text, AvailableSymbol,
    ExchangePositionRow, PairRow, PositionRow, ScanSummary, VenueBalanceRow, VenueMatchRow,
};
use crate::app::window_spread::{mean_of, venue_or_new, VenueSpreadBook, VenueSpreadModel};
use crate::config::{copy_texts, AppConfig};
use crate::decimal::{dround, fixed_text, lit, text_of_decimal, ArithError, Decimal};
use crate::domain::book::BookMap;
use crate::domain::symbol::Pair;
use crate::exchange::bridge::{last_of, place_rtt_text, rtt_words, PlaceChainRtt, RttBook};
use crate::keymap::{lists_in_order, KeyMap};
use crate::ranking::ranked;
use vstd::prelude::*;

verus! {

// ---------------------------------------------------------------------------
// Pairs
// ---------------------------------------------------------------------------

impl Clone for PairRow {
    fn clone(&self) -> (r: PairRow)
        ensures
            r == *self,
    {
        PairRow {
            pair_id: self.pair_id.clone(),
            buy: self.buy.clone(),
            sell: self.sell.clone(),
            raw_pct: self.raw_pct.clone(),
            net_pct: self.net_pct.clone(),
            fee_pct: self.fee_pct.clone(),
            nat_pct: self.nat_pct.clone(),
            res_pct: self.res_pct.clone(),
            entry_pct: self.entry_pct.clone(),
            dev_pct: self.dev_pct.clone(),
            delta_pct: self.delta_pct.clone(),
            grid: self.grid.clone(),
            target_qty: self.target_qty.clone(),
            actual_qty: self.actual_qty.clone(),
            status: self.status.clone(),
        }
    }
}

/// The rows that are kept, without their slots.
pub open spec fn rows_of(entries: Seq<(String, PairRow)>) -> Seq<PairRow> {
    entries.map_values(|e: (String, PairRow)| e.1)
}

fn row_list(rows: &KeyMap<PairRow>) -> (r: Vec<PairRow>)
    ensures
        r@ == rows_of(rows.list()),
{
    let n = rows.len();
    let mut out: Vec<PairRow> = Vec::new();
    let mut i: usize = 0;
    while i < n
        invariant
            n == rows.list().len(),
            i <= n,
            out@ == rows_of(rows.list()).take(i as int),
        decreases n - i,
    {
        out.push(rows.value(i).clone());
        proof {
            let all = rows_of(rows.list());
            assert(all.take(i + 1) =~= all.take(i as int).push(all[i as int]));
        }
        i = i + 1;
    }
    proof {
        let all = rows_of(rows.list());
        assert(all.take(i as int) =~= all);
    }
    out
}

// ---------------------------------------------------------------------------
// Venues
// ---------------------------------------------------------------------------

/// A venue on the page.
#[derive(Debug)]
pub struct VenueLiveRow {
    pub venue: String,
    pub spread_mu: String,
    pub volume: String,
    pub place_rtt: String,
}

pub struct VenueLiveModel {
    pub venue: Seq<char>,
    pub spread_mu: Seq<char>,
    pub volume: Seq<char>,
    pub place_rtt: Seq<char>,
}

pub open spec fn venue_live(r: VenueLiveRow) -> VenueLiveModel {
    VenueLiveModel {
        venue: r.venue@,
        spread_mu: r.spread_mu@,
        volume: r.volume@,
        place_rtt: r.place_rtt@,
    }
}

/// What is shown of a venue's own spread.
pub open spec fn spread_shown(m: VenueSpreadModel, venue: Seq<char>) -> Result<
    Seq<char>,
    ArithError,
> {
    let mean = if m.venues.contains_key(venue) {
        mean_of(m.venues[venue].points, m.cap)
    } else {
        Ok(None)
    };
    match mean {
        Ok(x) => spread_words(x, venue_or_new(m, venue).points.buf.len() as int, m.cap),
        Err(e) => Err(e),
    }
}

/// What was traded on a venue, nothing where nothing was.
pub open spec fn volume_shown(volume: Map<Seq<char>, Decimal>, venue: Seq<char>) -> Seq<char> {
    let v = if volume.contains_key(venue) {
        volume[venue]
    } else {
        lit(0, 0)
    };
    fixed_text(dround(v, 2), 2)
}

pub open spec fn live_row(
    m: VenueSpreadModel,
    volume: Map<Seq<char>, Decimal>,
    rtts: Map<Seq<char>, PlaceChainRtt>,
    venue: Seq<char>,
) -> Result<VenueLiveModel, ArithError> {
    match spread_shown(m, venue) {
        Ok(spread_mu) => Ok(
            VenueLiveModel {
                venue,
                spread_mu,
                volume: volume_shown(volume, venue),
                place_rtt: rtt_words(last_of(rtts, venue)),
            },
        ),
        Err(e) => Err(e),
    }
}

fn venue_row(spreads: &VenueSpreadBook, volume: &KeyMap<Decimal>, rtts: &RttBook, venue: &str) -> (r:
    Result<VenueLiveRow, ArithError>)
    ensures
        match r {
            Ok(x) => live_row(spreads@, volume@, rtts@, venue@) == Ok::<VenueLiveModel, ArithError>(
                venue_live(x),
            ),
            Err(_) => live_row(spreads@, volume@, rtts@, venue@) is Err,
        },
{
    let mean = spreads.live_mu(venue)?;
    let spread_mu = spread_text(mean, spreads.sample_count(venue), spreads.cap())?;
    let known = match volume.get(venue) {
        Some(v) => Some(*v),
        None => None,
    };
    Ok(
        VenueLiveRow {
            venue: venue.to_owned(),
            spread_mu,
            volume: volume_text(known),
            place_rtt: place_rtt_text(rtts, venue),
        },
    )
}

/// The chosen venues: their own spread, what was traded on them, and how long their last
/// order took.
pub fn venue_live_rows(
    selected: &Vec<String>,
    spreads: &VenueSpreadBook,
    volume: &KeyMap<Decimal>,
    rtts: &RttBook,
) -> (r: Result<Vec<VenueLiveRow>, ArithError>)
    ensures
        match r {
            Ok(v) => v@.len() == selected@.len() && forall|i: int|
                0 <= i < v@.len() ==> live_row(spreads@, volume@, rtts@, selected@[i]@) == Ok::<
                    VenueLiveModel,
                    ArithError,
                >(venue_live(#[trigger] v@[i])),
            Err(_) => exists|i: int|
                0 <= i < selected@.len() && live_row(
                    spreads@,
                    volume@,
                    rtts@,
                    (#[trigger] selected@[i])@,
                ) is Err,
        },
{
    let mut out: Vec<VenueLiveRow> = Vec::new();
    let mut i: usize = 0;
    while i < selected.len()
        invariant
            i <= selected@.len(),
            out@.len() == i,
            forall|j: int|
                0 <= j < i ==> live_row(spreads@, volume@, rtts@, selected@[j]@) == Ok::<
                    VenueLiveModel,
                    ArithError,
                >(venue_live(#[trigger] out@[j])),
        decreases selected.len() - i,
    {
        let row = venue_row(spreads, volume, rtts, selected[i].as_str())?;
        out.push(row);
        i = i + 1;
    }
    Ok(out)
}

// ---------------------------------------------------------------------------
// What stands open
// ---------------------------------------------------------------------------

/// A coin that stands open on one side.
#[derive(Debug)]
pub struct NakedExposureRow {
    pub pair_id: String,
    pub venue: String,
    pub qty: String,
    pub counterparty: String,
    pub source: String,
}

/// `row` shows what stands open.
pub open spec fn shows_naked(row: NakedExposureRow, n: NakedModel) -> bool {
    &&& row.pair_id@ == n.pair_id
    &&& row.venue@ == n.venue
    &&& row.qty@ == text_of_decimal(n.qty)
    &&& row.counterparty@ == n.counterparty
    &&& row.source@ == source_word(n.source)
}

pub fn naked_rows(naked: &Vec<NakedExposure>) -> (r: Vec<NakedExposureRow>)
    ensures
        r@.len() == naked@.len(),
        forall|i: int|
            0 <= i < r@.len() ==> shows_naked(#[trigger] r@[i], naked_model(naked@[i])),
{
    let mut out: Vec<NakedExposureRow> = Vec::new();
    let mut i: usize = 0;
    while i < naked.len()
        invariant
            i <= naked@.len(),
            out@.len() == i,
            forall|j: int|
                0 <= j < i ==> shows_naked(#[trigger] out@[j], naked_model(naked@[j])),
        decreases naked.len() - i,
    {
        let n = &naked[i];
        out.push(
            NakedExposureRow {
                pair_id: n.pair_id.clone(),
                venue: n.venue.clone(),
                qty: n.qty.text(),
                counterparty: n.counterparty.clone(),
                source: naked_source_text(n.source).to_owned(),
            },
        );
        i = i + 1;
    }
    out
}

// ---------------------------------------------------------------------------
// The scan
// ---------------------------------------------------------------------------

/// The scan on the page.
pub struct ScanView {
    pub summary: ScanSummary,
    pub error: Option<String>,
    pub watch_top: usize,
    pub sample_interval_ms: u64,
    pub venues: Vec<String>,
    pub rows: Vec<ScanRow>,
}

/// `v` shows the scan: how far it is and the rows that it came to; where it rests, nothing
/// but that.
pub open spec fn shows_scan(
    v: ScanView,
    running: bool,
    cfg: AppConfig,
    scan: ScanState,
    m: ScanModel,
    rows: Seq<ScanRow>,
) -> bool {
    &&& v.summary == summary_of(running, scan.phase, scan.universe@, scan.candidates@, m)
    &&& if !running && scan.phase == ScanPhase::Idle {
        &&& v.error is None
        &&& v.watch_top == 0
        &&& v.sample_interval_ms == 0
        &&& v.venues@.len() == 0
        &&& v.rows@.len() == 0
    } else {
        &&& v.error == scan.error
        &&& v.watch_top == cfg.scan.watch_top
        &&& v.sample_interval_ms == cfg.grid.sample_interval_ms
        &&& v.venues@ == scan.venues@
        &&& v.rows@ == rows
    }
}

pub fn scan_view(
    running: bool,
    cfg: &AppConfig,
    scan: &ScanState,
    engine: &ScanEngine,
    rows: Vec<ScanRow>,
) -> (r: ScanView)
    ensures
        shows_scan(r, running, *cfg, *scan, engine@, rows@),
{
    let summary = scan_summary(running, scan.phase, &scan.universe, &scan.candidates, engine);
    if !running && scan.phase == ScanPhase::Idle {
        return ScanView {
            summary,
            error: None,
            watch_top: 0,
            sample_interval_ms: 0,
            venues: Vec::new(),
            rows: Vec::new(),
        };
    }
    ScanView {
        summary,
        error: match &scan.error {
            Some(t) => Some(t.clone()),
            None => None,
        },
        watch_top: cfg.scan.watch_top,
        sample_interval_ms: cfg.grid.sample_interval_ms,
        venues: copy_texts(&scan.venues),
        rows,
    }
}

// ---------------------------------------------------------------------------
// All of it
// ---------------------------------------------------------------------------

/// What the page is told.
pub struct LiveSnapshot {
    pub pairs: Vec<PairRow>,
    pub positions: Vec<PositionRow>,
    pub balances: Vec<VenueBalanceRow>,
    pub exchange_positions: Vec<ExchangePositionRow>,
    pub venue_stats: Vec<VenueLiveRow>,
    pub naked_exposures: Vec<NakedExposureRow>,
    pub venue_matches: Vec<VenueMatchRow>,
    pub matched_pairs: usize,
    pub open_positions: usize,
    /// The largest spread that is shown.
    pub best_net: Option<Decimal>,
    pub arbitrage_enabled: bool,
    pub matching: bool,
    pub available: Vec<AvailableSymbol>,
    pub scan: ScanView,
    pub scan_running: bool,
}

/// The venues that were chosen on the page.
pub open spec fn chosen(control: Option<&ArbitrageControl>) -> Seq<String> {
    match control {
        Some(c) => c.params.active_venues@,
        None => Seq::empty(),
    }
}

/// Trading is on.
pub open spec fn is_enabled(control: Option<&ArbitrageControl>, cfg: AppConfig) -> bool {
    match control {
        Some(c) => c.enabled,
        None => cfg.execution.enabled,
    }
}

/// The scan runs.
pub open spec fn is_scanning(control: Option<&ArbitrageControl>, cfg: AppConfig) -> bool {
    match control {
        Some(c) => c.scan_running,
        None => cfg.scan.enabled && !cfg.execution.enabled,
    }
}

/// `b` is the largest spread that rows show, if they show one.
pub open spec fn is_best(b: Option<Decimal>, rows: Seq<PairRow>) -> bool {
    match b {
        None => forall|i: int|
            0 <= i < rows.len() ==> shown_net((#[trigger] rows[i]).net_pct@) is None,
        Some(d) => (exists|i: int|
            0 <= i < rows.len() && shown_net((#[trigger] rows[i]).net_pct@) == Some(d)) && (forall|
            i: int,
        |
            0 <= i < rows.len() ==> (shown_net((#[trigger] rows[i]).net_pct@) matches Some(x)
                ==> x.units() <= d.units())),
    }
}

/// Puts together what the page is told. There is no page where a number that it shows
/// cannot be computed.
pub fn live_snapshot(
    cfg: &AppConfig,
    control: Option<&ArbitrageControl>,
    rows: &KeyMap<PairRow>,
    positions: &PositionStore,
    accounts: &VenueAccountCache,
    balance: &BalanceCache,
    spreads: &VenueSpreadBook,
    volume: &KeyMap<Decimal>,
    rtts: &RttBook,
    naked: &Vec<NakedExposure>,
    books: &BookMap,
    available: &Vec<Pair>,
    matching: bool,
    scan: &ScanState,
    engine: &ScanEngine,
    scan_rows: Vec<ScanRow>,
) -> (r: Result<LiveSnapshot, ArithError>)
    ensures
        match r {
            Err(_) => {
                ||| exists|i: int|
                    0 <= i < chosen(control).len() && live_row(
                        spreads@,
                        volume@,
                        rtts@,
                        (#[trigger] chosen(control)[i])@,
                    ) is Err
                ||| exists|i: int|
                    0 <= i < available@.len() && choice_of(
                        *cfg,
                        spreads@,
                        *books,
                        #[trigger] available@[i],
                    ) is Err
            },
            Ok(s) => {
                let held = held_list(positions@, positions.order());
                let on = is_enabled(control, *cfg);
                let running = is_scanning(control, *cfg);
                &&& s.pairs@ == ranked(rows_of(rows.list()))
                &&& names_all(positions@, positions.order())
                &&& s.positions@.len() == held.len()
                &&& forall|i: int|
                    0 <= i < held.len() ==> shows_position(#[trigger] s.positions@[i], held[i])
                &&& s.balances@.len() == cfg.venues@.len()
                &&& forall|i: int|
                    0 <= i < s.balances@.len() ==> {
                        let (a, t) = balance_of(
                            accounts.venues@,
                            balance.by_venue@,
                            cfg.venues@[i]@,
                        );
                        &&& (#[trigger] s.balances@[i]).venue@ == cfg.venues@[i]@
                        &&& s.balances@[i].available@ == text_of_decimal(a)
                        &&& s.balances@[i].total@ == text_of_decimal(t)
                    }
                &&& held_models(s.exchange_positions@) == all_rows(accounts.venues@)
                &&& s.venue_stats@.len() == chosen(control).len()
                &&& forall|i: int|
                    0 <= i < s.venue_stats@.len() ==> live_row(
                        spreads@,
                        volume@,
                        rtts@,
                        chosen(control)[i]@,
                    ) == Ok::<VenueLiveModel, ArithError>(venue_live(#[trigger] s.venue_stats@[i]))
                &&& s.naked_exposures@.len() == naked@.len()
                &&& forall|i: int|
                    0 <= i < naked@.len() ==> shows_naked(
                        #[trigger] s.naked_exposures@[i],
                        naked_model(naked@[i]),
                    )
                &&& match_models(s.venue_matches@) == matches_up_to(
                    s.pairs@,
                    cfg.venues@,
                    cfg.venues@.len() as int,
                )
                &&& s.matched_pairs == rows@.dom().len()
                &&& s.open_positions == open_slots(positions@).len()
                &&& is_best(s.best_net, s.pairs@)
                &&& s.arbitrage_enabled == on
                &&& s.matching == matching
                &&& exists|ids: Seq<String>| #[trigger]
                    lists_in_order(ids, bases(available@)) && s.available@.len() == ids.len()
                        && forall|k: int|
                        0 <= k < s.available@.len() ==> shows_coin(
                            #[trigger] s.available@[k],
                            *cfg,
                            spreads@,
                            *books,
                            available@,
                            ids[k]@,
                        )
                &&& s.scan_running == running
                &&& shows_scan(s.scan, running, *cfg, *scan, engine@, scan_rows@)
            },
        },
{
    let none: Vec<String> = Vec::new();
    let (selected, on, scans) = match control {
        Some(c) => (&c.params.active_venues, Some(c.enabled), Some(c.scan_running)),
        None => (&none, None, None),
    };
    proof {
        assert(selected@ =~= chosen(control));
    }
    let venue_stats = venue_live_rows(selected, spreads, volume, rtts)?;
    let coins = available_pairs_payload(cfg, spreads, books, available)?;
    let pairs = sorted_rows(row_list(rows));
    let running = scan_is_running(scans, cfg);
    let venue_matches = venue_match_rows(&pairs, &cfg.venues);
    let best = best_net(&pairs);
    let scan = scan_view(running, cfg, scan, engine, scan_rows);
    Ok(
        LiveSnapshot {
            positions: position_rows(positions),
            balances: balance_rows(&cfg.venues, accounts, balance),
            exchange_positions: exchange_position_rows(accounts),
            venue_stats,
            naked_exposures: naked_rows(naked),
            venue_matches,
            matched_pairs: rows.len(),
            open_positions: positions.open_count(),
            best_net: best,
            arbitrage_enabled: arbitrage_enabled(on, cfg),
            matching,
            available: coins,
            scan,
            scan_running: running,
            pairs,
        },
    )
}

} // verus!
