//! What the loops do around the pairs: switching on and off, which loop runs and
//! how fast, and what is dropped when nothing holds it.

use crate::app::activate::{slot_is_live, slot_lives};
use crate::app::balance::{all_answered, VenueAccountCache};
use crate::app::burst::BurstSlot;
use crate::app::control::{is_applied, ArbitrageControl, ArbitrageParams};
use crate::app::intervention::{no_waits, InterventionGuard};
use crate::app::naked::{kept_of, naked_models, retain, take_foreign, Keep};
use crate::app::positions::{PosModel, PositionStore, StoreModel};
use crate::app::reconcile::{coins, detect_naked_exposures, exposures, NakedExposure};
use crate::app::scan::{latest, window_cap, CoinSample, Samples, ScanEngine, SlotSample};
use crate::app::snapshot::PairRow;
use crate::app::window_spread::{
    at_least_one, mean_reset, slot_reset, MeanModel, SlotModel, VenueSpreadBook, WindowBook,
};
use crate::clock::{elapsed, Duration, Instant};
use crate::config::{copy_texts, AppConfig};
use crate::decimal::ArithError;
use crate::domain::symbol::Pair;
use crate::domain::window_grid::{cleared, GridState, WindowGridEngine};
use crate::keymap::{lists_in_order, KeyMap, KeySet};
use vstd::prelude::*;

verus! {

#[derive(Clone, Copy, Debug, PartialEq, Eq, Structural)]
pub enum LoopKind {
    /// Trading and scanning in turn.
    Unified,
    Scan,
    /// One look at a pair for every book that comes.
    Events,
}

/// A page or trading takes the loop that does both.
pub fn which_loop(cfg: &AppConfig) -> (r: LoopKind)
    ensures
        r == (if cfg.http.enabled || cfg.execution.enabled {
            LoopKind::Unified
        } else if cfg.scan.enabled {
            LoopKind::Scan
        } else {
            LoopKind::Events
        }),
{
    if cfg.http.enabled || cfg.execution.enabled {
        LoopKind::Unified
    } else if cfg.scan.enabled {
        LoopKind::Scan
    } else {
        LoopKind::Events
    }
}

/// The time between two ticks, at least ten milliseconds.
pub fn loop_interval_ms(cfg: &AppConfig, scanning: bool) -> (r: u64)
    ensures
        r == ({
            let ms = if scanning {
                cfg.scan.analysis_interval_ms
            } else {
                cfg.execution.loop_interval_ms
            };
            if ms < 10 {
                10
            } else {
                ms
            }
        }),
{
    let ms = if scanning {
        cfg.scan.analysis_interval_ms
    } else {
        cfg.execution.loop_interval_ms
    };
    if ms < 10 {
        10
    } else {
        ms
    }
}

/// The scan runs: as the page says, else where scanning is configured and trading
/// is not.
pub fn scan_is_running(switched: Option<bool>, cfg: &AppConfig) -> (r: bool)
    ensures
        r == (match switched {
            Some(b) => b,
            None => cfg.scan.enabled && !cfg.execution.enabled,
        }),
{
    match switched {
        Some(b) => b,
        None => cfg.scan.enabled && !cfg.execution.enabled,
    }
}

/// Trading is on: as the page says, else as configured.
pub fn arbitrage_enabled(switched: Option<bool>, cfg: &AppConfig) -> (r: bool)
    ensures
        r == (match switched {
            Some(b) => b,
            None => cfg.execution.enabled,
        }),
{
    match switched {
        Some(b) => b,
        None => cfg.execution.enabled,
    }
}

/// The venues that are scanned: those chosen where there are at least two, else
/// those that were.
pub fn live_scan_venues(chosen: Option<&Vec<String>>, known: &Vec<String>) -> (r: Vec<String>)
    ensures
        r@ == (match chosen {
            Some(v) => if v@.len() >= 2 {
                v@
            } else {
                known@
            },
            None => known@,
        }),
{
    match chosen {
        Some(v) => if v.len() >= 2 {
            copy_texts(v)
        } else {
            copy_texts(known)
        },
        None => copy_texts(known),
    }
}

#[derive(Clone, Copy, Debug, PartialEq, Eq, Structural)]
pub enum Edge {
    Started,
    Stopped,
    Same,
}

/// Trading was just switched on or off.
pub fn enabled_edge(was: bool, on: bool) -> (r: Edge)
    ensures
        r == (if was && !on {
            Edge::Stopped
        } else if !was && on {
            Edge::Started
        } else {
            Edge::Same
        }),
{
    if was && !on {
        Edge::Stopped
    } else if !was && on {
        Edge::Started
    } else {
        Edge::Same
    }
}

/// A control whose scan is switched off.
pub open spec fn scan_stopped(c: ArbitrageControl) -> ArbitrageControl {
    ArbitrageControl {
        scan_running: false,
        rematch_scan: false,
        params: ArbitrageParams { scan_enabled: false, ..c.params },
        ..c
    }
}

impl ArbitrageControl {
    /// Takes the wish to match pairs anew, and says on which venues. With fewer
    /// than two it comes to nothing.
    pub fn take_rematch(&mut self) -> (r: Option<Vec<String>>)
        ensures
            *final(self) == (ArbitrageControl { rematch: false, ..*old(self) }),
            match r {
                Some(v) => old(self).rematch && v@ == old(self).params.active_venues@ && v@.len()
                    >= 2,
                None => !old(self).rematch || old(self).params.active_venues@.len() < 2,
            },
    {
        if !self.rematch {
            return None;
        }
        self.rematch = false;
        if self.params.active_venues.len() < 2 {
            return None;
        }
        Some(copy_texts(&self.params.active_venues))
    }

    /// Takes the wish to scan anew, and says whether it can be done.
    pub fn take_scan_rematch(&mut self) -> (r: Option<bool>)
        ensures
            *final(self) == (ArbitrageControl { rematch_scan: false, ..*old(self) }),
            r == (if old(self).rematch_scan {
                Some(old(self).scan_running && old(self).params.scan_venues@.len() >= 2)
            } else {
                None
            }),
    {
        if !self.rematch_scan {
            return None;
        }
        self.rematch_scan = false;
        Some(self.scan_running && self.params.scan_venues.len() >= 2)
    }

    /// Switches the scan off after it failed.
    pub fn stop_scan(&mut self)
        ensures
            *final(self) == scan_stopped(*old(self)),
    {
        self.scan_running = false;
        self.rematch_scan = false;
        self.params.scan_enabled = false;
    }
}

// ---------------------------------------------------------------------------
// What is dropped
// ---------------------------------------------------------------------------

/// The slots that hold something or have an order under way.
pub open spec fn living(
    pairs: Seq<Pair>,
    m: StoreModel,
    pending: Set<Seq<char>>,
    placing: Set<Seq<char>>,
) -> Set<Seq<char>>
    decreases pairs.len(),
{
    if pairs.len() == 0 {
        Set::empty()
    } else {
        let init = living(pairs.drop_last(), m, pending, placing);
        if slot_lives(m, pending, placing, pairs.last().slot()) {
            init.insert(pairs.last().slot())
        } else {
            init
        }
    }
}

pub fn live_slots(
    pairs: &Vec<Pair>,
    positions: &PositionStore,
    pending: &KeySet,
    placing: &KeySet,
) -> (r: KeySet)
    ensures
        r@.dom() == living(pairs@, positions@, pending@.dom(), placing@.dom()),
{
    let mut out: KeySet = KeyMap::new();
    let mut i: usize = 0;
    proof {
        assert(pairs@.take(0) =~= Seq::empty());
        assert(out@.dom() =~= Set::empty());
    }
    while i < pairs.len()
        invariant
            i <= pairs@.len(),
            out@.dom() == living(
                pairs@.take(i as int),
                positions@,
                pending@.dom(),
                placing@.dom(),
            ),
        decreases pairs.len() - i,
    {
        proof {
            assert(pairs@.take(i + 1).drop_last() =~= pairs@.take(i as int));
        }
        let slot = pairs[i].slot_key();
        if slot_is_live(positions, pending, placing, slot.as_str()) {
            let ghost before = out@;
            out.insert(slot.as_str(), ());
            proof {
                assert(out@.dom() =~= before.dom().insert(slot@));
            }
        }
        i = i + 1;
    }
    proof {
        assert(pairs@.take(i as int) =~= pairs@);
    }
    out
}

/// The venues of the named slots.
pub open spec fn slot_venues(pairs: Seq<Pair>, slots: Set<Seq<char>>) -> Set<Seq<char>>
    decreases pairs.len(),
{
    if pairs.len() == 0 {
        Set::empty()
    } else {
        let init = slot_venues(pairs.drop_last(), slots);
        let p = pairs.last();
        if slots.contains(p.slot()) {
            init.insert(p.legs@[0].venue.0@).insert(p.legs@[1].venue.0@)
        } else {
            init
        }
    }
}

pub fn venues_for_live_slots(pairs: &Vec<Pair>, slots: &KeySet) -> (r: KeySet)
    ensures
        r@.dom() == slot_venues(pairs@, slots@.dom()),
{
    let mut out: KeySet = KeyMap::new();
    let mut i: usize = 0;
    proof {
        assert(pairs@.take(0) =~= Seq::empty());
        assert(out@.dom() =~= Set::empty());
    }
    while i < pairs.len()
        invariant
            i <= pairs@.len(),
            out@.dom() == slot_venues(pairs@.take(i as int), slots@.dom()),
        decreases pairs.len() - i,
    {
        proof {
            assert(pairs@.take(i + 1).drop_last() =~= pairs@.take(i as int));
        }
        if slots.contains(pairs[i].slot_key().as_str()) {
            let ghost before = out@;
            out.insert(pairs[i].legs[0].venue.as_str(), ());
            out.insert(pairs[i].legs[1].venue.as_str(), ());
            proof {
                assert(out@.dom() =~= before.dom().insert(
                    pairs@[i as int].legs@[0].venue.0@,
                ).insert(pairs@[i as int].legs@[1].venue.0@));
            }
        }
        i = i + 1;
    }
    proof {
        assert(pairs@.take(i as int) =~= pairs@);
    }
    out
}

/// What the engine remembers once the pairs that do not live are forgotten.
pub open spec fn idle_forgotten(g: GridState, pairs: Seq<Pair>, keep: Set<Seq<char>>) -> GridState
    decreases pairs.len(),
{
    if pairs.len() == 0 {
        g
    } else {
        let init = idle_forgotten(g, pairs.drop_last(), keep);
        if keep.contains(pairs.last().slot()) {
            init
        } else {
            cleared(init, pairs.last().slot())
        }
    }
}

/// Drops the windows of all that does not live: when trading is switched on again
/// its means start from nothing. Gives the slots that live.
pub fn drop_idle_windows(
    pairs: &Vec<Pair>,
    positions: &PositionStore,
    pending: &KeySet,
    placing: &KeySet,
    windows: &mut WindowBook,
    spreads: &mut VenueSpreadBook,
    engine: &mut WindowGridEngine,
) -> (r: KeySet)
    ensures
        r@.dom() == living(pairs@, positions@, pending@.dom(), placing@.dom()),
        final(windows)@.slots == old(windows)@.slots.restrict(r@.dom()),
        final(windows)@.cap == old(windows)@.cap,
        final(windows)@.interval_ms == old(windows)@.interval_ms,
        final(spreads)@.venues == old(spreads)@.venues.restrict(slot_venues(pairs@, r@.dom())),
        final(spreads)@.cap == old(spreads)@.cap,
        final(spreads)@.interval_ms == old(spreads)@.interval_ms,
        final(engine)@ == idle_forgotten(old(engine)@, pairs@, r@.dom()),
{
    let keep = live_slots(pairs, positions, pending, placing);
    let venues = venues_for_live_slots(pairs, &keep);
    windows.drop_except(&keep);
    spreads.drop_except_venues(&venues);
    let mut i: usize = 0;
    proof {
        assert(pairs@.take(0) =~= Seq::empty());
    }
    while i < pairs.len()
        invariant
            i <= pairs@.len(),
            engine@ == idle_forgotten(old(engine)@, pairs@.take(i as int), keep@.dom()),
        decreases pairs.len() - i,
    {
        proof {
            assert(pairs@.take(i + 1).drop_last() =~= pairs@.take(i as int));
        }
        let slot = pairs[i].slot_key();
        if !keep.contains(slot.as_str()) {
            engine.forget(slot.as_str());
        }
        i = i + 1;
    }
    proof {
        assert(pairs@.take(i as int) =~= pairs@);
    }
    keep
}

// ---------------------------------------------------------------------------
// Starting, stopping and settling
// ---------------------------------------------------------------------------

/// When each of the pairs was last flat, once all of them are.
pub open spec fn all_flat(m: Map<Seq<char>, Instant>, pairs: Seq<Pair>, now: Instant) -> Map<
    Seq<char>,
    Instant,
>
    decreases pairs.len(),
{
    if pairs.len() == 0 {
        m
    } else {
        all_flat(m, pairs.drop_last(), now).insert(pairs.last().slot(), now)
    }
}

/// Forgets all that trading remembered: positions and rounds, orders and hedges under
/// way, residues, reports, waits, windows and what the page shows. What the venues hold
/// they still hold: it is found again from their accounts.
pub fn clear_arbitrage_memory(
    pairs: &Vec<Pair>,
    positions: &mut PositionStore,
    naked: &mut Vec<NakedExposure>,
    intervention: &mut InterventionGuard,
    windows: &mut WindowBook,
    spreads: &mut VenueSpreadBook,
    engine: &mut WindowGridEngine,
    last_flat: &mut KeyMap<Instant>,
    rounds: &mut KeyMap<BurstSlot>,
    placing: &mut KeySet,
    pending: &mut KeySet,
    naked_busy: &mut KeySet,
    dust_since: &mut KeyMap<Instant>,
    reported: &mut KeyMap<Instant>,
    rows: &mut KeyMap<PairRow>,
    now: Instant,
)
    ensures
        final(rounds)@ == Map::<Seq<char>, BurstSlot>::empty(),
        final(placing)@ == Map::<Seq<char>, ()>::empty(),
        final(pending)@ == Map::<Seq<char>, ()>::empty(),
        final(naked_busy)@ == Map::<Seq<char>, ()>::empty(),
        final(dust_since)@ == Map::<Seq<char>, Instant>::empty(),
        final(reported)@ == Map::<Seq<char>, Instant>::empty(),
        final(rows)@ == Map::<Seq<char>, PairRow>::empty(),
        final(positions)@.positions == Map::<Seq<char>, PosModel>::empty(),
        final(positions)@.pending == Set::<Seq<char>>::empty(),
        naked_models(final(naked)@) == kept_of(old(naked)@, Keep::NotBotFailures),
        final(intervention)@ == no_waits(),
        final(windows)@.slots == Map::<Seq<char>, SlotModel>::empty(),
        final(windows)@.cap == old(windows)@.cap,
        final(windows)@.interval_ms == old(windows)@.interval_ms,
        final(spreads)@.venues == Map::<Seq<char>, MeanModel>::empty(),
        final(spreads)@.cap == old(spreads)@.cap,
        final(spreads)@.interval_ms == old(spreads)@.interval_ms,
        final(engine)@ == idle_forgotten(old(engine)@, pairs@, Set::empty()),
        final(last_flat)@ == all_flat(old(last_flat)@, pairs@, now),
{
    rounds.clear();
    placing.clear();
    pending.clear();
    naked_busy.clear();
    dust_since.clear();
    reported.clear();
    rows.clear();
    *positions = PositionStore::new();
    retain(naked, &Keep::NotBotFailures);
    *intervention = InterventionGuard::new();
    let none: KeySet = KeyMap::new();
    let ghost empty = Set::<Seq<char>>::empty();
    proof {
        assert(none@.dom() =~= empty);
    }
    windows.drop_except(&none);
    spreads.drop_except_venues(&none);
    proof {
        assert(windows@.slots =~= Map::<Seq<char>, SlotModel>::empty());
        assert(spreads@.venues =~= Map::<Seq<char>, MeanModel>::empty());
    }
    let mut i: usize = 0;
    proof {
        assert(pairs@.take(0) =~= Seq::empty());
    }
    while i < pairs.len()
        invariant
            i <= pairs@.len(),
            empty == Set::<Seq<char>>::empty(),
            engine@ == idle_forgotten(old(engine)@, pairs@.take(i as int), empty),
            last_flat@ == all_flat(old(last_flat)@, pairs@.take(i as int), now),
        decreases pairs.len() - i,
    {
        proof {
            assert(pairs@.take(i + 1).drop_last() =~= pairs@.take(i as int));
        }
        let slot = pairs[i].slot_key();
        engine.forget(slot.as_str());
        last_flat.insert(slot.as_str(), now);
        i = i + 1;
    }
    proof {
        assert(pairs@.take(i as int) =~= pairs@);
    }
}

/// Takes over what the page says, and sets the windows by it.
pub fn sync_page_config(
    params: &ArbitrageParams,
    cfg: &mut AppConfig,
    windows: &mut WindowBook,
    spreads: &mut VenueSpreadBook,
    scan: &mut ScanEngine,
)
    ensures
        is_applied(*params, *old(cfg), *final(cfg)),
        ({
            let cap = at_least_one(final(cfg).grid.window_samples as int);
            let ms = at_least_one(final(cfg).grid.sample_interval_ms as int);
            let scan_cap = window_cap(final(cfg).scan.window_samples as int);
            &&& final(windows)@.cap == cap
            &&& final(windows)@.interval_ms == ms
            &&& final(windows)@.slots == old(windows)@.slots.map_values(
                |m: SlotModel| slot_reset(m, cap, old(windows)@.interval_ms == ms),
            )
            &&& final(spreads)@.cap == cap
            &&& final(spreads)@.interval_ms == ms
            &&& final(spreads)@.venues == old(spreads)@.venues.map_values(
                |m: MeanModel| mean_reset(m, cap, old(spreads)@.interval_ms == ms),
            )
            &&& final(scan)@.cap == scan_cap
            &&& final(scan)@.interval_ms == ms
            &&& final(scan)@.slots == old(scan)@.slots.map_values(
                |m: Samples<SlotSample>| latest(m, scan_cap),
            )
            &&& final(scan)@.coins == old(scan)@.coins.map_values(
                |m: Samples<CoinSample>| latest(m, scan_cap),
            )
        }),
{
    params.apply_to(cfg);
    windows.configure(cfg.grid.window_samples, cfg.grid.sample_interval_ms);
    spreads.configure(cfg.grid.window_samples, cfg.grid.sample_interval_ms);
    scan.configure(cfg.scan.window_samples, cfg.grid.sample_interval_ms);
}

/// Takes in what the venues hold, once all have answered, and says whether what is
/// remembered is to be held against it.
pub fn reconcile_exchange_positions(
    pairs: &Vec<Pair>,
    accounts: &VenueAccountCache,
    naked: &mut Vec<NakedExposure>,
    enabled: bool,
) -> (r: Result<bool, ArithError>)
    ensures
        !all_answered(accounts.venues@) ==> r == Ok::<bool, ArithError>(false) && final(naked)@
            == old(naked)@,
        all_answered(accounts.venues@) ==> exists|ids: Seq<String>| #[trigger]
            lists_in_order(ids, coins(pairs@)) && match r {
                Ok(b) => b == enabled && (exposures(ids, pairs@, accounts.venues@) matches Ok(found)
                    && naked_models(final(naked)@) == kept_of(old(naked)@, Keep::BotFailures)
                    + found),
                Err(_) => exposures(ids, pairs@, accounts.venues@) is Err && final(naked)@ == old(
                    naked,
                )@,
            },
{
    if !accounts.all_fresh() {
        return Ok(false);
    }
    let foreign = detect_naked_exposures(pairs.as_slice(), accounts)?;
    take_foreign(naked, &foreign);
    Ok(enabled)
}

/// The places that are looked at once those in `first` were.
pub open spec fn other_looks(n: int, first: Seq<usize>) -> Seq<usize>
    decreases n,
{
    if n <= 0 {
        Seq::empty()
    } else if first.contains((n - 1) as usize) {
        other_looks(n - 1, first)
    } else {
        other_looks(n - 1, first).push((n - 1) as usize)
    }
}

/// The pairs that may open, in order. They are looked at one after another until
/// an order is under way.
pub fn may_run(n: usize, first: &Vec<usize>) -> (r: Vec<usize>)
    ensures
        r@ == other_looks(n as int, first@),
{
    let mut out: Vec<usize> = Vec::new();
    let mut i: usize = 0;
    while i < n
        invariant
            i <= n,
            out@ == other_looks(i as int, first@),
        decreases n - i,
    {
        let mut k: usize = 0;
        while k < first.len() && first[k] != i
            invariant
                k <= first@.len(),
                forall|j: int| 0 <= j < k ==> first@[j] != i,
            decreases first.len() - k,
        {
            k = k + 1;
        }
        if k == first.len() {
            proof {
                assert(!first@.contains(i));
            }
            out.push(i);
        } else {
            proof {
                assert(first@[k as int] == i);
            }
        }
        i = i + 1;
    }
    out
}

/// The step at which a slot stands, if it was opened with a quantity per step.
pub fn current_grid_level(positions: &PositionStore, slot: &str) -> (r: Option<i32>)
    ensures
        r == (if positions@.positions.contains_key(slot@)
            && positions@.positions[slot@].base_qty.units() > 0 {
            Some(positions@.positions[slot@].grid)
        } else {
            None
        }),
{
    match positions.get(slot) {
        Some(p) => if p.base_qty.is_positive() {
            Some(p.grid)
        } else {
            None
        },
        None => None,
    }
}

/// Enough time has passed since the page was last told.
pub fn snapshot_due(last: Instant, now: Instant, min_interval: Duration) -> (r: bool)
    ensures
        r == (elapsed(now, last) >= min_interval.nanos),
{
    now.since(last).nanos >= min_interval.nanos
}

} // verus!
