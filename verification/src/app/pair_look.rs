//! A look at a pair from its start to its order: the steps in their order.

use crate::app::balance::BalanceCache;
use crate::app::intervention::{waits_on, GuardModel, InterventionGuard};
use crate::app::pair_step::{
    book_gate, books_read, by_direction, close_all, delta_inputs, enter, entered, flat_spread,
    flat_view, force_exit_intent, forced_reason, last_gate, listed, margin_on, observe_books,
    open_refusal, open_skip, pair_delta_inputs, pair_params, params_of, passes, permit, read_books,
    reading_of, recorded, seen_book, venues_chosen, want, windows_after, with_round_trip, BookStep,
    EntryFacts, EntryStep, GateFacts, OpenFacts, OpenSkip, PairStep, Reading, Readings,
};
use crate::app::risk::{quality, tradable};
use crate::app::sizing::capacity;
use crate::app::verdict::{or_else, said, Said};
use crate::app::window_spread::{
    exec_spread, exec_spread_pct, live_of, slot_or_new, SlotModel, VenueSpreadBook,
    VenueSpreadModel, WindowBook, WindowModel,
};
use crate::clock::Instant;
use crate::config::AppConfig;
use crate::decimal::{dmax, lit, ArithError, Decimal};
use crate::domain::book::Bbo;
use crate::domain::grid::{CloseReason, CloseView, GridParams, Intent};
use crate::domain::position::Position;
use crate::domain::symbol::Pair;
use crate::domain::window_grid::{
    cleared, decision, state_after, GridState, Tick, WindowGridEngine, WindowGridParams,
};
use crate::keymap::KeyMap;
use vstd::prelude::*;

verus! {

/// What a look at a pair came to.
#[derive(Debug)]
pub enum LookStep {
    /// Switched off and nothing under way.
    Idle,
    Burst,
    Watch,
    Paint,
    NotChosen,
    /// A book or the price between the books is missing.
    NoBook(BookStep),
    /// The coin has no settings.
    NotConfigured,
    /// The books do not allow it.
    Refused(&'static str),
    NoSpread,
    /// The pair's window is not full.
    Sampling,
    /// The venues' windows are not full.
    SpreadSampling,
    /// What the grid wants, its settings, and the price between the books.
    Wanted(Intent, GridParams, Decimal),
}

/// A look, told.
pub enum Looked {
    Idle,
    Burst,
    Watch,
    Paint,
    NotChosen,
    NoBook(BookStep),
    NotConfigured,
    Refused(Seq<char>),
    NoSpread,
    Sampling,
    SpreadSampling,
    Wanted(Intent, GridParams, Decimal),
}

pub open spec fn looked(s: LookStep) -> Looked {
    match s {
        LookStep::Idle => Looked::Idle,
        LookStep::Burst => Looked::Burst,
        LookStep::Watch => Looked::Watch,
        LookStep::Paint => Looked::Paint,
        LookStep::NotChosen => Looked::NotChosen,
        LookStep::NoBook(b) => Looked::NoBook(b),
        LookStep::NotConfigured => Looked::NotConfigured,
        LookStep::Refused(w) => Looked::Refused(w@),
        LookStep::NoSpread => Looked::NoSpread,
        LookStep::Sampling => Looked::Sampling,
        LookStep::SpreadSampling => Looked::SpreadSampling,
        LookStep::Wanted(i, g, m) => Looked::Wanted(i, g, m),
    }
}

pub open spec fn told(r: Result<LookStep, ArithError>) -> Result<Looked, ArithError> {
    match r {
        Ok(s) => Ok(looked(s)),
        Err(e) => Err(e),
    }
}

/// What a look reads and writes.
pub struct Memory {
    pub windows: WindowModel,
    pub spreads: VenueSpreadModel,
    pub engine: GridState,
}

/// What is switched on and under way.
#[derive(Clone, Copy, Debug)]
pub struct Switches {
    /// Trading is switched on.
    pub enabled: bool,
    /// Positions are filled in bursts.
    pub burst: bool,
    /// An order rests.
    pub pending: bool,
    /// Both legs are being placed.
    pub hedging: bool,
}

/// What a look goes by.
pub struct Sight {
    pub cfg: AppConfig,
    pub pair: Pair,
    pub pos: Option<Position>,
    /// The books give a spread for closing the position.
    pub held_spread: bool,
    pub balances: Map<Seq<char>, Decimal>,
    pub book_floor: Decimal,
    pub now_ms: int,
    pub now: Instant,
}

/// Something is held.
pub open spec fn is_held(pos: Option<Position>) -> bool {
    pos is Some && pos->0.qty.units() > 0
}

pub open spec fn seen_position(p: Option<&Position>) -> Option<Position> {
    match p {
        Some(x) => Some(*x),
        None => None,
    }
}

/// The memory without what the engine remembers of the slot.
pub open spec fn unremembered(m: Memory, slot: Seq<char>) -> Memory {
    Memory { engine: cleared(m.engine, slot), ..m }
}

/// A position whose mean was lost gets the present one, once there is one: steps
/// must not drift with the mean while something is held.
pub open spec fn frozen_again(w: WindowModel, slot: Seq<char>, held: bool) -> Result<
    WindowModel,
    ArithError,
> {
    if held && slot_or_new(w, slot).frozen is None {
        match live_of(w, slot) {
            Err(e) => Err(e),
            Ok(None) => Ok(w),
            Ok(Some(mu)) => Ok(
                WindowModel {
                    slots: w.slots.insert(
                        slot,
                        SlotModel { frozen: Some(mu), ..w.slots[slot] },
                    ),
                    ..w
                },
            ),
        }
    } else {
        Ok(w)
    }
}

fn freeze_again(windows: &mut WindowBook, slot: &str, held: bool) -> (r: Result<(), ArithError>)
    ensures
        match frozen_again(old(windows)@, slot@, held) {
            Ok(w) => r is Ok && final(windows)@ == w,
            Err(_) => r is Err && final(windows)@ == old(windows)@,
        },
{
    if held && !windows.is_frozen(slot) {
        if windows.live_mu(slot)?.is_some() {
            windows.freeze(slot)?;
        }
    }
    Ok(())
}

// ---------------------------------------------------------------------------
// What the grid wants
// ---------------------------------------------------------------------------

/// The settings of a grid as the engine takes them.
pub open spec fn engine_params(p: GridParams, hysteresis: Decimal) -> WindowGridParams {
    WindowGridParams {
        step: p.step,
        max_step: if (p.max_segments as i32) < 1 {
            1
        } else {
            p.max_segments as i32
        },
        hysteresis: dmax(hysteresis, lit(0, 0)),
        persistence: p.persistence,
        persistence_min_hits: p.persistence_min_hits,
        base_qty: p.base_qty,
        split_order_size: p.split_order_size,
        min_qty: p.min_qty,
    }
}

/// What is wanted: closing at once where it must be, else what the engine says.
pub open spec fn grid_wants(
    x: Sight,
    m: Memory,
    b0: Bbo,
    b1: Bbo,
    mid: Decimal,
    params: GridParams,
    spreads_known: bool,
) -> (Memory, Result<Looked, ArithError>) {
    let slot = x.pair.slot();
    let held = is_held(x.pos);
    match (exec_spread(b0, b1, true), exec_spread(b0, b1, false), live_of(m.windows, slot)) {
        (Ok(s_plus), Ok(s_minus), Ok(mu)) => {
            let forced = match x.pos {
                Some(p) => forced_reason(x.cfg, x.balances, p, x.now),
                None => None,
            };
            let reading = reading_of(Readings { mu, s_plus, s_minus, spreads_known, held });
            if forced is Some {
                (m, Ok(Looked::Wanted(close_all(x.pos->0, forced->0), params, mid)))
            } else if reading == Reading::Ask {
                let t = Tick {
                    k: match x.pos {
                        Some(p) => p.grid as int,
                        None => 0,
                    },
                    s_plus: s_plus->0,
                    s_minus: s_minus->0,
                    mu: mu->0,
                    left: x.pair.legs@[0].venue,
                    right: x.pair.legs@[1].venue,
                    held_qty: match x.pos {
                        Some(p) => p.qty,
                        None => lit(0, 0),
                    },
                };
                let w = engine_params(params, x.cfg.grid.step_hysteresis);
                let after = Memory { engine: state_after(m.engine, slot, t, w, x.now), ..m };
                match decision(m.engine, slot, t, w, x.now) {
                    Ok(i) => (after, Ok(Looked::Wanted(i, params, mid))),
                    Err(e) => (after, Err(e)),
                }
            } else {
                (
                    unremembered(m, slot),
                    Ok(
                        if reading == Reading::Sampling && !held {
                            Looked::Sampling
                        } else if reading == Reading::SpreadSampling {
                            Looked::SpreadSampling
                        } else {
                            Looked::Wanted(Intent::Hold, params, mid)
                        },
                    ),
                )
            }
        },
        _ => (m, Err(ArithError)),
    }
}

fn ask_grid(
    cfg: &AppConfig,
    pair: &Pair,
    pos: Option<&Position>,
    balance: &BalanceCache,
    windows: &WindowBook,
    engine: &mut WindowGridEngine,
    b0: &Bbo,
    b1: &Bbo,
    mid: Decimal,
    params: GridParams,
    spreads_known: bool,
    now: Instant,
) -> (r: Result<LookStep, ArithError>)
    ensures
        forall|x: Sight, m: Memory|
            x.cfg == *cfg && x.pair == *pair && x.pos == seen_position(pos) && x.balances
                == balance.by_venue@ && x.now == now && m.windows == windows@ && m.engine
                == old(engine)@ ==> {
                let (after, said) = #[trigger] grid_wants(
                    x,
                    m,
                    *b0,
                    *b1,
                    mid,
                    params,
                    spreads_known,
                );
                told(r) == said && final(engine)@ == after.engine && after.windows == m.windows
                    && after.spreads == m.spreads
            },
{
    let slot = pair.slot_key();
    let held = match pos {
        Some(p) => p.qty.is_positive(),
        None => false,
    };
    let s_plus = exec_spread_pct(b0, b1, true)?;
    let s_minus = exec_spread_pct(b0, b1, false)?;
    let mu = windows.live_mu(slot.as_str())?;
    let forced = match pos {
        Some(p) => force_exit_intent(cfg, balance, p, now),
        None => None,
    };
    let k: i32 = match pos {
        Some(p) => p.grid,
        None => 0,
    };
    let held_qty = match pos {
        Some(p) => p.qty,
        None => Decimal::zero(),
    };
    let w = WindowGridParams::from_grid(&params, cfg.grid.step_hysteresis);
    proof {
        assert(w == engine_params(params, cfg.grid.step_hysteresis));
    }
    let (reading, intent) = want(
        engine,
        slot.as_str(),
        forced,
        Readings { mu, s_plus, s_minus, spreads_known, held },
        k,
        &pair.legs[0].venue,
        &pair.legs[1].venue,
        held_qty,
        &w,
        now,
    )?;
    if reading == Reading::Sampling && !held {
        return Ok(LookStep::Sampling);
    }
    if reading == Reading::SpreadSampling {
        return Ok(LookStep::SpreadSampling);
    }
    Ok(LookStep::Wanted(intent, params, mid))
}

// ---------------------------------------------------------------------------
// What the books say
// ---------------------------------------------------------------------------

/// The books taken into the windows, where they are fresh and sound.
pub open spec fn observed(x: Sight, m: Memory, b0: Bbo, b1: Bbo) -> Result<Memory, ArithError> {
    match quality(x.cfg, b0, b1, x.now) {
        Err(e) => Err(e),
        Ok(Some(_)) => Ok(m),
        Ok(None) => match windows_after(
            m.windows,
            m.spreads,
            x.pair.slot(),
            x.pair.legs@[0].venue.0@,
            x.pair.legs@[1].venue.0@,
            b0,
            b1,
            x.now_ms,
        ) {
            Ok((w, v)) => Ok(Memory { windows: w, spreads: v, ..m }),
            Err(e) => Err(e),
        },
    }
}

/// What stands against the books. What is held may be closed on thin ones.
pub open spec fn against_books(x: Sight, b0: Bbo, b1: Bbo, base_qty: Decimal) -> Said {
    if x.pos is Some {
        quality(x.cfg, b0, b1, x.now)
    } else {
        tradable(x.cfg, x.pair, b0, b1, x.book_floor, base_qty, x.now)
    }
}

/// The books give a spread.
pub open spec fn gives_spread(x: Sight, b0: Bbo, b1: Bbo) -> Result<bool, ArithError> {
    if is_held(x.pos) {
        Ok(x.held_spread)
    } else {
        match flat_view(x.cfg, x.pair.legs@[0].venue, x.pair.legs@[1].venue, b0, b1) {
            Ok(s) => Ok(s is Some),
            Err(e) => Err(e),
        }
    }
}

/// The quantity of a step with which a position was opened.
pub open spec fn opened_with(pos: Option<Position>) -> Option<Decimal> {
    match pos {
        Some(p) => Some(p.base_qty),
        None => None,
    }
}

/// The quantity of a step: that of the position, else that of the settings.
pub open spec fn step_qty(pos: Option<Position>, set: Decimal) -> Decimal {
    if pos is Some && pos->0.base_qty.units() > 0 {
        pos->0.base_qty
    } else {
        set
    }
}

/// A look from the books on: they are sampled before they are judged, so that
/// thin books fill the windows too.
pub open spec fn books_say(x: Sight, m: Memory, b0: Bbo, b1: Bbo, mid: Decimal) -> (
    Memory,
    Result<Looked, ArithError>,
) {
    let slot = x.pair.slot();
    let v0 = x.pair.legs@[0].venue.0@;
    let v1 = x.pair.legs@[1].venue.0@;
    match x.cfg.grid_of(
        x.pair.legs@[0].base@,
        v0,
        v1,
        dmax(x.pair.legs@[0].min_qty, x.pair.legs@[1].min_qty),
    ) {
        Err(e) => (m, Err(e)),
        Ok(None) => (m, Ok(Looked::NotConfigured)),
        Ok(Some(g)) => match observed(x, m, b0, b1) {
            Err(e) => (m, Err(e)),
            Ok(m1) => match frozen_again(m1.windows, slot, is_held(x.pos)) {
                Err(e) => (m1, Err(e)),
                Ok(w) => {
                    let m2 = Memory { windows: w, ..m1 };
                    match against_books(x, b0, b1, step_qty(x.pos, g.base_qty)) {
                        Err(e) => (m2, Err(e)),
                        Ok(Some(word)) => (
                            if is_held(x.pos) {
                                m2
                            } else {
                                unremembered(m2, slot)
                            },
                            Ok(Looked::Refused(word)),
                        ),
                        Ok(None) => match gives_spread(x, b0, b1) {
                            Err(e) => (m2, Err(e)),
                            Ok(false) => (unremembered(m2, slot), Ok(Looked::NoSpread)),
                            Ok(true) => match (
                                params_of(x.cfg, m2.spreads, x.pair, opened_with(x.pos)),
                                delta_inputs(x.cfg, m2.spreads, v0, v1),
                            ) {
                                (Ok(Some(params)), Ok((_, avg))) => grid_wants(
                                    x,
                                    m2,
                                    b0,
                                    b1,
                                    mid,
                                    params,
                                    avg is Some,
                                ),
                                (Ok(None), Ok(_)) => (m2, Ok(Looked::NotConfigured)),
                                _ => (m2, Err(ArithError)),
                            },
                        },
                    }
                },
            },
        },
    }
}

fn read_pair(
    cfg: &AppConfig,
    pair: &Pair,
    pos: Option<&Position>,
    held_spread: bool,
    balance: &BalanceCache,
    windows: &mut WindowBook,
    spreads: &mut VenueSpreadBook,
    engine: &mut WindowGridEngine,
    b0: &Bbo,
    b1: &Bbo,
    mid: Decimal,
    book_floor: Decimal,
    now_ms: u64,
    now: Instant,
) -> (r: Result<LookStep, ArithError>)
    ensures
        ({
            let x = Sight {
                cfg: *cfg,
                pair: *pair,
                pos: seen_position(pos),
                held_spread,
                balances: balance.by_venue@,
                book_floor,
                now_ms: now_ms as int,
                now,
            };
            let m = Memory {
                windows: old(windows)@,
                spreads: old(spreads)@,
                engine: old(engine)@,
            };
            let (after, said) = books_say(x, m, *b0, *b1, mid);
            &&& told(r) == said
            &&& final(windows)@ == after.windows
            &&& final(spreads)@ == after.spreads
            &&& final(engine)@ == after.engine
        }),
{
    let slot = pair.slot_key();
    let v0 = &pair.legs[0].venue;
    let v1 = &pair.legs[1].venue;
    let held = match pos {
        Some(p) => p.qty.is_positive(),
        None => false,
    };
    let grid = match cfg.grid_for(
        pair.legs[0].base.as_str(),
        v0.as_str(),
        v1.as_str(),
        pair.min_qty(),
    )? {
        None => {
            return Ok(LookStep::NotConfigured);
        },
        Some(g) => g,
    };
    let mut base_qty = grid.base_qty;
    let mut opened: Option<Decimal> = None;
    if let Some(p) = pos {
        opened = Some(p.base_qty);
        if p.base_qty.is_positive() {
            base_qty = p.base_qty;
        }
    }
    observe_books(cfg, windows, spreads, slot.as_str(), v0, v1, b0, b1, now_ms, now)?;
    freeze_again(windows, slot.as_str(), held)?;
    let verdict = book_gate(cfg, pair, pos.is_some(), b0, b1, book_floor, base_qty, now)?;
    if let Err(word) = verdict {
        if !held {
            engine.forget(slot.as_str());
        }
        return Ok(LookStep::Refused(word));
    }
    let has_spread = if held {
        held_spread
    } else {
        flat_spread(cfg, v0, v1, b0, b1)?.is_some()
    };
    if !has_spread {
        engine.forget(slot.as_str());
        return Ok(LookStep::NoSpread);
    }
    let params = pair_params(cfg, spreads, pair, opened)?;
    let (_, avg) = pair_delta_inputs(cfg, spreads, v0, v1)?;
    match params {
        None => Ok(LookStep::NotConfigured),
        Some(p) => ask_grid(
            cfg,
            pair,
            pos,
            balance,
            windows,
            engine,
            b0,
            b1,
            mid,
            p,
            avg.is_some(),
            now,
        ),
    }
}

/// What a slot shows when it is entered.
pub open spec fn entry_facts(x: Sight, s: Switches, chosen: bool) -> EntryFacts {
    EntryFacts {
        enabled: s.enabled,
        burst: s.burst,
        pending: s.pending,
        hedging: s.hedging,
        held: is_held(x.pos),
        chosen,
    }
}

/// Both venues were chosen, among at least two; they are where there is nothing
/// to choose with.
pub open spec fn is_chosen(active: Option<Seq<String>>, pair: Pair) -> bool {
    match active {
        None => true,
        Some(list) => list.len() >= 2 && listed(list, pair.legs@[0].venue.0@) && listed(
            list,
            pair.legs@[1].venue.0@,
        ),
    }
}

/// A whole look. A slot that is switched off loses its windows; a resting order is
/// watched before any book is judged.
pub open spec fn look_of(
    x: Sight,
    s: Switches,
    chosen: bool,
    m: Memory,
    b0: Option<Bbo>,
    b1: Option<Bbo>,
) -> (Memory, Result<Looked, ArithError>) {
    let slot = x.pair.slot();
    match entered(entry_facts(x, s, chosen)) {
        EntryStep::Idle => (
            Memory {
                windows: WindowModel { slots: m.windows.slots.remove(slot), ..m.windows },
                engine: cleared(m.engine, slot),
                ..m
            },
            Ok(Looked::Idle),
        ),
        EntryStep::Burst => (m, Ok(Looked::Burst)),
        EntryStep::Watch => (m, Ok(Looked::Watch)),
        EntryStep::Paint => (m, Ok(Looked::Paint)),
        EntryStep::NotChosen => (unremembered(m, slot), Ok(Looked::NotChosen)),
        EntryStep::Go => match books_read(b0, b1) {
            Err(e) => (m, Err(e)),
            Ok(BookStep::Ready(mid)) => books_say(x, m, b0->0, b1->0, mid),
            Ok(other) => (unremembered(m, slot), Ok(Looked::NoBook(other))),
        },
    }
}

/// Looks at a pair: from what is switched on to what its grid wants.
pub fn look_at_pair(
    cfg: &AppConfig,
    switches: Switches,
    active: Option<&Vec<String>>,
    pair: &Pair,
    pos: Option<&Position>,
    held_spread: bool,
    balance: &BalanceCache,
    windows: &mut WindowBook,
    spreads: &mut VenueSpreadBook,
    engine: &mut WindowGridEngine,
    b0: Option<&Bbo>,
    b1: Option<&Bbo>,
    book_floor: Decimal,
    now_ms: u64,
    now: Instant,
) -> (r: Result<LookStep, ArithError>)
    ensures
        ({
            let x = Sight {
                cfg: *cfg,
                pair: *pair,
                pos: seen_position(pos),
                held_spread,
                balances: balance.by_venue@,
                book_floor,
                now_ms: now_ms as int,
                now,
            };
            let m = Memory {
                windows: old(windows)@,
                spreads: old(spreads)@,
                engine: old(engine)@,
            };
            let list = match active {
                Some(v) => Some(v@),
                None => None,
            };
            let (after, said) = look_of(
                x,
                switches,
                is_chosen(list, *pair),
                m,
                seen_book(b0),
                seen_book(b1),
            );
            &&& told(r) == said
            &&& final(windows)@ == after.windows
            &&& final(spreads)@ == after.spreads
            &&& final(engine)@ == after.engine
        }),
{
    let slot = pair.slot_key();
    let held = match pos {
        Some(p) => p.qty.is_positive(),
        None => false,
    };
    let step = enter(
        EntryFacts {
            enabled: switches.enabled,
            burst: switches.burst,
            pending: switches.pending,
            hedging: switches.hedging,
            held,
            chosen: venues_chosen(active, pair),
        },
    );
    match step {
        EntryStep::Idle => {
            windows.drop_slot(slot.as_str());
            engine.forget(slot.as_str());
            return Ok(LookStep::Idle);
        },
        EntryStep::Burst => {
            return Ok(LookStep::Burst);
        },
        EntryStep::Watch => {
            return Ok(LookStep::Watch);
        },
        EntryStep::Paint => {
            return Ok(LookStep::Paint);
        },
        EntryStep::NotChosen => {
            engine.forget(slot.as_str());
            return Ok(LookStep::NotChosen);
        },
        EntryStep::Go => {},
    }
    let read = read_books(b0, b1)?;
    match (read, b0, b1) {
        (BookStep::Ready(mid), Some(left), Some(right)) => read_pair(
            cfg,
            pair,
            pos,
            held_spread,
            balance,
            windows,
            spreads,
            engine,
            left,
            right,
            mid,
            book_floor,
            now_ms,
            now,
        ),
        _ => {
            engine.forget(slot.as_str());
            Ok(LookStep::NoBook(read))
        },
    }
}

// ---------------------------------------------------------------------------
// What becomes of it
// ---------------------------------------------------------------------------

/// What becomes of an intent.
#[derive(Debug)]
pub enum Settled {
    /// It cannot be carried.
    Refused(&'static str),
    /// It goes to the last question; with why an opening was held back.
    Done(PairStep, Option<OpenSkip>),
}

/// Why an intent cannot be carried: margin and depth hold up an opening, and a
/// step back must find its quantity in the books. A close that must be is never
/// held up.
pub open spec fn refusal(
    cfg: AppConfig,
    balances: Map<Seq<char>, Decimal>,
    bound: Map<Seq<char>, Decimal>,
    pair: Pair,
    has_pos: bool,
    intent: Intent,
    b0: Bbo,
    b1: Bbo,
    mid: Decimal,
    has_spread: bool,
) -> Said {
    let thin = if has_spread {
        Ok(None)
    } else {
        Ok(Some("thin_book"@))
    };
    match intent {
        Intent::Open { qty, buy, sell, grid } => {
            let (bb, sb) = by_direction(buy.0@, pair.legs@[0].venue.0@, b0, b1);
            or_else(
                capacity(
                    cfg.sizing.margin_utilization_pct,
                    cfg.sizing.depth_pct,
                    qty,
                    margin_on(cfg, balances, bound, buy.0@),
                    margin_on(cfg, balances, bound, sell.0@),
                    bb,
                    sb,
                    mid,
                ),
                thin,
            )
        },
        Intent::Close { qty, grid, reason, round_trip_pct } => if reason == CloseReason::GridReduce
            && has_pos {
            thin
        } else {
            Ok(None)
        },
        Intent::Hold => Ok(None),
    }
}

/// What an intent is once opening was held back where it must be.
pub open spec fn allowed_intent(intent: Intent, f: OpenFacts) -> Intent {
    if intent is Open && open_skip(f) is Some {
        Intent::Hold
    } else {
        intent
    }
}

/// Carries an intent to its order, or says what stands in the way.
pub fn settle(
    cfg: &AppConfig,
    balance: &BalanceCache,
    bound: &KeyMap<Decimal>,
    guard: &mut InterventionGuard,
    pair: &Pair,
    pos: Option<&Position>,
    intent: Intent,
    view: Option<CloseView>,
    b0: &Bbo,
    b1: &Bbo,
    mid: Decimal,
    has_spread: bool,
    open: OpenFacts,
    facts: GateFacts,
    now: Instant,
) -> (r: Result<Settled, ArithError>)
    ensures
        ({
            let entry = match pos {
                Some(p) => Some(p.entry_net_pct),
                None => None,
            };
            match recorded(intent, entry, view) {
                Err(_) => r is Err && final(guard)@ == old(guard)@,
                Ok(i) => match refusal(
                    *cfg,
                    balance.by_venue@,
                    bound@,
                    *pair,
                    pos is Some,
                    i,
                    *b0,
                    *b1,
                    mid,
                    has_spread,
                ) {
                    Err(_) => r is Err && final(guard)@ == old(guard)@,
                    Ok(Some(word)) => {
                        &&& r matches Ok(Settled::Refused(w)) && w@ == word
                        &&& final(guard)@ == old(guard)@
                    },
                    Ok(None) => {
                        let held_back = if i is Open {
                            open_skip(open)
                        } else {
                            None
                        };
                        match r {
                            Ok(Settled::Done(step, skip)) => skip == held_back && passes(
                                old(guard)@,
                                final(guard)@,
                                pair.pair_id@,
                                allowed_intent(i, open),
                                facts,
                                now,
                                Ok(step),
                            ),
                            Ok(Settled::Refused(_)) => false,
                            Err(e) => passes(
                                old(guard)@,
                                final(guard)@,
                                pair.pair_id@,
                                allowed_intent(i, open),
                                facts,
                                now,
                                Err(e),
                            ),
                        }
                    },
                },
            }
        }),
{
    let entry = match pos {
        Some(p) => Some(p.entry_net_pct),
        None => None,
    };
    let intent = with_round_trip(intent, entry, view)?;
    match &intent {
        Intent::Open { qty, buy, sell, .. } => {
            let verdict = open_refusal(
                cfg,
                balance,
                bound,
                buy,
                sell,
                *qty,
                &pair.legs[0].venue,
                b0,
                b1,
                mid,
                has_spread,
            )?;
            if let Err(word) = verdict {
                return Ok(Settled::Refused(word));
            }
        },
        Intent::Close { reason, .. } => {
            if *reason == CloseReason::GridReduce && pos.is_some() && !has_spread {
                return Ok(Settled::Refused("thin_book"));
            }
        },
        Intent::Hold => {},
    }
    let (intent, skip) = permit(intent, open);
    let step = last_gate(guard, pair.pair_id.as_str(), intent, facts, now)?;
    Ok(Settled::Done(step, skip))
}

// ---------------------------------------------------------------------------
// Laws
// ---------------------------------------------------------------------------

/// A resting order is watched whatever the books are, and nothing that is
/// remembered changes by it.
pub proof fn law_resting_orders_are_watched(
    x: Sight,
    s: Switches,
    chosen: bool,
    m: Memory,
    b0: Option<Bbo>,
    b1: Option<Bbo>,
)
    requires
        s.pending,
        !s.burst,
    ensures
        look_of(x, s, chosen, m, b0, b1) == (m, Ok::<Looked, ArithError>(Looked::Watch)),
{
}

/// An opening goes out only with trading on, the keys of both venues at hand and nothing
/// of the coin standing open, and only while no order is under way, its own slot's least.
pub proof fn law_openings_go_out_alone(
    m: GuardModel,
    after: GuardModel,
    pair: Seq<char>,
    intent: Intent,
    open: OpenFacts,
    facts: GateFacts,
    now: Instant,
    step: PairStep,
)
    requires
        passes(m, after, pair, allowed_intent(intent, open), facts, now, Ok(step)),
        step matches PairStep::Trade(i, why) && i is Open,
    ensures
        open.enabled && !open.naked && open.keys_ready,
        !facts.is_pending && !facts.in_flight,
        !waits_on(m, pair, facts.grid, now),
{
}

/// With trading switched off nothing is opened.
pub proof fn law_switched_off_opens_nothing(intent: Intent, f: OpenFacts)
    requires
        !f.enabled,
    ensures
        !(allowed_intent(intent, f) is Open),
{
}

/// A close that must be is carried whatever the margin and the depth are.
pub proof fn law_forced_close_is_carried(
    cfg: AppConfig,
    balances: Map<Seq<char>, Decimal>,
    bound: Map<Seq<char>, Decimal>,
    pair: Pair,
    has_pos: bool,
    intent: Intent,
    b0: Bbo,
    b1: Bbo,
    mid: Decimal,
    has_spread: bool,
    f: OpenFacts,
)
    requires
        intent matches Intent::Close { qty, grid, reason, round_trip_pct } && reason
            != CloseReason::GridReduce,
    ensures
        refusal(cfg, balances, bound, pair, has_pos, intent, b0, b1, mid, has_spread) == Ok::<
            Option<Seq<char>>,
            ArithError,
        >(None),
        allowed_intent(intent, f) == intent,
{
}

} // verus!
