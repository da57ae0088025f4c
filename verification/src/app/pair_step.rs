//! One look at a pair: whether it is looked at at all, what its books and
//! windows say, what the grid wants, and what becomes of that.

use crate::app::balance::BalanceCache;
use crate::app::intervention::{resumed, waits_on, why_resumed, Gate, GuardModel, InterventionGuard};
use crate::app::risk::{books_quality_ok, books_tradable, quality, tradable};
use crate::app::sizing::{capacity, check_capacity, mid_between, mid_from_bbo, LegMargin};
use crate::app::verdict::{or_else, said, Verdict};
use crate::app::window_spread::{
    hub_avg, mean_of, mid_spread, mid_spread_pct, own_spread_mid, own_spread_mid_pct,
    pair_spread_hub_avg, venue_seen, window_seen, VenueSpreadBook, VenueSpreadModel, WindowBook,
    WindowModel,
};
use crate::clock::{elapsed, secs, Duration, Instant, NANOS_PER_MILLI, NANOS_PER_SEC};
use crate::config::{leverage_of, AppConfig};
use crate::decimal::{
    adds_exactly, diff, dmax, dneg, halves_exactly, lemma_adds_exactly, lemma_half, lemma_lit,
    lemma_sign, lemma_subtracts_exactly, lit, prod, subtracts_exactly, sum, sums_exactly, value,
    ArithError, Calc, Decimal,
};
use crate::domain::book::Bbo;
use crate::domain::grid::{
    grid_step, grid_step_from_target_bp, CloseReason, CloseView, GridParams, Intent,
};
use crate::domain::position::Position;
use crate::domain::spread::NetSpread;
use crate::domain::symbol::{Pair, VenueId};
use crate::domain::window_grid::{
    cleared, decision, state_after, Tick, WindowGridEngine, WindowGridParams,
};
use crate::keymap::KeyMap;
use crate::text::{number_text, same};
use vstd::prelude::*;

verus! {

// ---------------------------------------------------------------------------
// Entry
// ---------------------------------------------------------------------------

/// What is known of a slot before its books are read.
#[derive(Clone, Copy, Debug)]
pub struct EntryFacts {
    /// Trading is switched on.
    pub enabled: bool,
    /// Positions are filled in bursts.
    pub burst: bool,
    /// An order rests.
    pub pending: bool,
    /// Both legs are being placed.
    pub hedging: bool,
    /// Something is held.
    pub held: bool,
    /// Both venues are among those chosen.
    pub chosen: bool,
}

#[derive(Clone, Copy, Debug, PartialEq, Eq, Structural)]
pub enum EntryStep {
    /// Switched off and nothing under way: windows and row are dropped.
    Idle,
    Burst,
    /// A resting order is watched until it is filled or gone.
    Watch,
    /// The row is kept up to date while both legs are placed.
    Paint,
    /// Nothing is opened on venues that were not chosen; what is held is still
    /// closed there.
    NotChosen,
    Go,
}

/// Something is held on a slot or on its way.
pub open spec fn is_live(f: EntryFacts) -> bool {
    f.held || f.pending || f.hedging
}

pub open spec fn entered(f: EntryFacts) -> EntryStep {
    if !f.enabled && !is_live(f) {
        EntryStep::Idle
    } else if f.burst {
        EntryStep::Burst
    } else if f.pending {
        EntryStep::Watch
    } else if f.hedging {
        EntryStep::Paint
    } else if !f.held && !f.chosen {
        EntryStep::NotChosen
    } else {
        EntryStep::Go
    }
}

pub fn enter(f: EntryFacts) -> (r: EntryStep)
    ensures
        r == entered(f),
{
    let live = f.held || f.pending || f.hedging;
    if !f.enabled && !live {
        EntryStep::Idle
    } else if f.burst {
        EntryStep::Burst
    } else if f.pending {
        EntryStep::Watch
    } else if f.hedging {
        EntryStep::Paint
    } else if !f.held && !f.chosen {
        EntryStep::NotChosen
    } else {
        EntryStep::Go
    }
}

/// A text stands in a list.
pub open spec fn listed(list: Seq<String>, x: Seq<char>) -> bool {
    exists|i: int| 0 <= i < list.len() && (#[trigger] list[i])@ == x
}

pub fn is_listed(list: &Vec<String>, x: &str) -> (r: bool)
    ensures
        r == listed(list@, x@),
{
    let mut i: usize = 0;
    while i < list.len()
        invariant
            i <= list@.len(),
            forall|j: int| 0 <= j < i ==> (#[trigger] list@[j])@ != x@,
        decreases list.len() - i,
    {
        if same(list[i].as_str(), x) {
            return true;
        }
        i = i + 1;
    }
    false
}

/// Both venues of a pair were chosen, among at least two. Where there is nothing
/// to choose with, they are.
pub fn venues_chosen(active: Option<&Vec<String>>, pair: &Pair) -> (r: bool)
    ensures
        r == (match active {
            None => true,
            Some(list) => list@.len() >= 2 && listed(list@, pair.legs@[0].venue.0@) && listed(
                list@,
                pair.legs@[1].venue.0@,
            ),
        }),
{
    match active {
        None => true,
        Some(list) => list.len() >= 2 && is_listed(list, pair.legs[0].venue.as_str()) && is_listed(
            list,
            pair.legs[1].venue.as_str(),
        ),
    }
}

// ---------------------------------------------------------------------------
// Books
// ---------------------------------------------------------------------------

#[derive(Clone, Copy, Debug)]
pub enum BookStep {
    NoBooks,
    NoLeft,
    NoRight,
    NoMid,
    /// The price between the two books.
    Ready(Decimal),
}

pub open spec fn books_read(b0: Option<Bbo>, b1: Option<Bbo>) -> Result<BookStep, ArithError> {
    match (b0, b1) {
        (None, None) => Ok(BookStep::NoBooks),
        (None, Some(_)) => Ok(BookStep::NoLeft),
        (Some(_), None) => Ok(BookStep::NoRight),
        (Some(a), Some(b)) => match mid_between(a, b) {
            Err(e) => Err(e),
            Ok(None) => Ok(BookStep::NoMid),
            Ok(Some(m)) => Ok(BookStep::Ready(m)),
        },
    }
}

pub open spec fn seen_book(b: Option<&Bbo>) -> Option<Bbo> {
    match b {
        Some(x) => Some(*x),
        None => None,
    }
}

pub fn read_books(b0: Option<&Bbo>, b1: Option<&Bbo>) -> (r: Result<BookStep, ArithError>)
    ensures
        r == books_read(seen_book(b0), seen_book(b1)),
{
    match (b0, b1) {
        (None, None) => Ok(BookStep::NoBooks),
        (None, Some(_)) => Ok(BookStep::NoLeft),
        (Some(_), None) => Ok(BookStep::NoRight),
        (Some(a), Some(b)) => match mid_from_bbo(a, b)? {
            None => Ok(BookStep::NoMid),
            Some(m) => Ok(BookStep::Ready(m)),
        },
    }
}

/// The book that is bought on, then the one that is sold on.
pub open spec fn by_direction(buy: Seq<char>, v0: Seq<char>, b0: Bbo, b1: Bbo) -> (Bbo, Bbo) {
    if buy == v0 {
        (b0, b1)
    } else {
        (b1, b0)
    }
}

pub fn books_for_direction<'a>(buy: &VenueId, v0: &VenueId, b0: &'a Bbo, b1: &'a Bbo) -> (r: (
    &'a Bbo,
    &'a Bbo,
))
    ensures
        (*r.0, *r.1) == by_direction(buy.0@, v0.0@, *b0, *b1),
{
    if buy == v0 {
        (b0, b1)
    } else {
        (b1, b0)
    }
}

/// What the books of a pair give its windows. Depth is not asked for: thin books
/// would else never fill a window.
pub open spec fn windows_after(
    w: WindowModel,
    v: VenueSpreadModel,
    slot: Seq<char>,
    v0: Seq<char>,
    v1: Seq<char>,
    b0: Bbo,
    b1: Bbo,
    now_ms: int,
) -> Result<(WindowModel, VenueSpreadModel), ArithError> {
    match (mid_spread(b0, b1), own_spread_mid(b0), own_spread_mid(b1)) {
        (Ok(s), Ok(c0), Ok(c1)) => {
            let w1 = match s {
                Some(x) => window_seen(w, slot, now_ms, x),
                None => w,
            };
            let va = match c0 {
                Some(x) => venue_seen(v, v0, now_ms, x),
                None => v,
            };
            let vb = match c1 {
                Some(x) => venue_seen(va, v1, now_ms, x),
                None => va,
            };
            Ok((w1, vb))
        },
        _ => Err(ArithError),
    }
}

/// Takes the books of a pair into its windows, where they are fresh and sound.
pub fn observe_books(
    cfg: &AppConfig,
    windows: &mut WindowBook,
    spreads: &mut VenueSpreadBook,
    slot: &str,
    v0: &VenueId,
    v1: &VenueId,
    b0: &Bbo,
    b1: &Bbo,
    now_ms: u64,
    now: Instant,
) -> (r: Result<(), ArithError>)
    ensures
        match quality(*cfg, *b0, *b1, now) {
            Err(_) => r is Err && final(windows)@ == old(windows)@ && final(spreads)@
                == old(spreads)@,
            Ok(Some(_)) => r is Ok && final(windows)@ == old(windows)@ && final(spreads)@
                == old(spreads)@,
            Ok(None) => match windows_after(
                old(windows)@,
                old(spreads)@,
                slot@,
                v0.0@,
                v1.0@,
                *b0,
                *b1,
                now_ms as int,
            ) {
                Ok((w, v)) => r is Ok && final(windows)@ == w && final(spreads)@ == v,
                Err(_) => r is Err && final(windows)@ == old(windows)@ && final(spreads)@
                    == old(spreads)@,
            },
        },
{
    match books_quality_ok(cfg, b0, b1, now)? {
        Err(_) => {
            return Ok(());
        },
        Ok(_) => {},
    }
    let s = mid_spread_pct(b0, b1)?;
    let c0 = own_spread_mid_pct(b0)?;
    let c1 = own_spread_mid_pct(b1)?;
    if let Some(x) = s {
        windows.observe(slot, now_ms, x);
    }
    if let Some(x) = c0 {
        spreads.observe(v0.as_str(), now_ms, x);
    }
    if let Some(x) = c1 {
        spreads.observe(v1.as_str(), now_ms, x);
    }
    Ok(())
}

/// What stands against a pair's books: for one that holds something only what is
/// wrong with the data, for one that is to open also the depth.
pub fn book_gate(
    cfg: &AppConfig,
    pair: &Pair,
    has_position: bool,
    b0: &Bbo,
    b1: &Bbo,
    book_floor: Decimal,
    base_qty: Decimal,
    now: Instant,
) -> (r: Verdict)
    ensures
        said(r) == (if has_position {
            quality(*cfg, *b0, *b1, now)
        } else {
            tradable(*cfg, *pair, *b0, *b1, book_floor, base_qty, now)
        }),
{
    if has_position {
        books_quality_ok(cfg, b0, b1, now)
    } else {
        books_tradable(cfg, pair, b0, b1, book_floor, base_qty, now)
    }
}

// ---------------------------------------------------------------------------
// The width of a step
// ---------------------------------------------------------------------------

/// The mean of a venue's own spread; none before its window is full.
pub open spec fn venue_mean(v: VenueSpreadModel, venue: Seq<char>) -> Result<
    Option<Decimal>,
    ArithError,
> {
    if v.venues.contains_key(venue) {
        mean_of(v.venues[venue].points, v.cap)
    } else {
        Ok(None)
    }
}

/// The fees of a round trip, and the mean of the two venues' spreads once both
/// are known.
pub open spec fn delta_inputs(
    cfg: AppConfig,
    v: VenueSpreadModel,
    v0: Seq<char>,
    v1: Seq<char>,
) -> Result<(Decimal, Option<Decimal>), ArithError> {
    match (venue_mean(v, v0), venue_mean(v, v1), cfg.round_trip_taker(v0, v1)) {
        (Ok(c0), Ok(c1), Ok(fee)) => match (c0, c1) {
            (Some(a), Some(b)) => match hub_avg(a, b) {
                Ok(avg) => Ok((fee, Some(avg))),
                Err(e) => Err(e),
            },
            _ => Ok((fee, None)),
        },
        _ => Err(ArithError),
    }
}

pub fn pair_delta_inputs(
    cfg: &AppConfig,
    spreads: &VenueSpreadBook,
    v0: &VenueId,
    v1: &VenueId,
) -> (r: Result<(Decimal, Option<Decimal>), ArithError>)
    ensures
        r == delta_inputs(*cfg, spreads@, v0.0@, v1.0@),
{
    let c0 = spreads.live_mu(v0.as_str())?;
    let c1 = spreads.live_mu(v1.as_str())?;
    let fee = cfg.market_round_trip_taker(v0, v1)?;
    match (c0, c1) {
        (Some(a), Some(b)) => Ok((fee, Some(pair_spread_hub_avg(a, b)?))),
        _ => Ok((fee, None)),
    }
}

/// The width of a step as the windows stand; spreads that are not known yet
/// count as zero.
pub open spec fn delta_of(cfg: AppConfig, v: VenueSpreadModel, pair: Pair) -> Calc {
    let v0 = pair.legs@[0].venue.0@;
    let v1 = pair.legs@[1].venue.0@;
    match delta_inputs(cfg, v, v0, v1) {
        Err(e) => Err(e),
        Ok((fee, avg)) => grid_step(
            cfg.target_of(pair.legs@[0].base@, v0, v1),
            fee,
            match avg {
                Some(c) => c,
                None => lit(0, 0),
            },
            cfg.grid.step_hysteresis,
        ),
    }
}

pub fn live_delta(cfg: &AppConfig, spreads: &VenueSpreadBook, pair: &Pair) -> (r: Calc)
    ensures
        r == delta_of(*cfg, spreads@, *pair),
{
    let v0 = &pair.legs[0].venue;
    let v1 = &pair.legs[1].venue;
    let (fee, avg) = pair_delta_inputs(cfg, spreads, v0, v1)?;
    let c = match avg {
        Some(c) => c,
        None => Decimal::zero(),
    };
    grid_step_from_target_bp(
        cfg.target_bp_for(pair.legs[0].base.as_str(), v0.as_str(), v1.as_str()),
        fee,
        c,
        cfg.grid.step_hysteresis,
    )
}

/// The grid of a pair: a position keeps the step quantity with which it was
/// opened, and the width of a step is the present one.
pub open spec fn params_of(
    cfg: AppConfig,
    v: VenueSpreadModel,
    pair: Pair,
    held_base_qty: Option<Decimal>,
) -> Result<Option<GridParams>, ArithError> {
    match cfg.grid_of(
        pair.legs@[0].base@,
        pair.legs@[0].venue.0@,
        pair.legs@[1].venue.0@,
        dmax(pair.legs@[0].min_qty, pair.legs@[1].min_qty),
    ) {
        Err(e) => Err(e),
        Ok(None) => Ok(None),
        Ok(Some(g)) => match delta_of(cfg, v, pair) {
            Err(e) => Err(e),
            Ok(step) => Ok(
                Some(
                    GridParams {
                        step,
                        base_qty: if held_base_qty is Some && held_base_qty->0.units() > 0 {
                            held_base_qty->0
                        } else {
                            g.base_qty
                        },
                        ..g
                    },
                ),
            ),
        },
    }
}

pub fn pair_params(
    cfg: &AppConfig,
    spreads: &VenueSpreadBook,
    pair: &Pair,
    held_base_qty: Option<Decimal>,
) -> (r: Result<Option<GridParams>, ArithError>)
    ensures
        r == params_of(*cfg, spreads@, *pair, held_base_qty),
{
    let grid = cfg.grid_for(
        pair.legs[0].base.as_str(),
        pair.legs[0].venue.as_str(),
        pair.legs[1].venue.as_str(),
        pair.min_qty(),
    )?;
    match grid {
        None => Ok(None),
        Some(g) => {
            let mut p = g;
            p.step = live_delta(cfg, spreads, pair)?;
            if let Some(q) = held_base_qty {
                if q.is_positive() {
                    p.base_qty = q;
                }
            }
            Ok(Some(p))
        },
    }
}

/// The spread of a pair that holds nothing: that of the middles, as if the right
/// venue were bought and the left one sold.
pub open spec fn flat_view(cfg: AppConfig, v0: VenueId, v1: VenueId, b0: Bbo, b1: Bbo) -> Result<
    Option<NetSpread>,
    ArithError,
> {
    match (sum(Ok(cfg.taker(v0.0@)), Ok(cfg.taker(v1.0@))), mid_spread(b0, b1)) {
        (Ok(fee), Ok(Some(raw))) => match diff(Ok(raw), Ok(fee)) {
            Ok(net) => Ok(
                Some(
                    NetSpread {
                        buy: v1,
                        sell: v0,
                        raw_pct: raw,
                        fee_pct: fee,
                        slip_pct: lit(0, 0),
                        net_pct: net,
                    },
                ),
            ),
            Err(e) => Err(e),
        },
        (Ok(_), Ok(None)) => Ok(None),
        _ => Err(ArithError),
    }
}

pub fn flat_spread(cfg: &AppConfig, v0: &VenueId, v1: &VenueId, b0: &Bbo, b1: &Bbo) -> (r: Result<
    Option<NetSpread>,
    ArithError,
>)
    ensures
        r == flat_view(*cfg, *v0, *v1, *b0, *b1),
{
    let fee = cfg.exec_fee(v0).plus(cfg.exec_fee(v1))?;
    match mid_spread_pct(b0, b1)? {
        None => Ok(None),
        Some(raw) => {
            let net = raw.minus(fee)?;
            Ok(
                Some(
                    NetSpread {
                        buy: v1.clone(),
                        sell: v0.clone(),
                        raw_pct: raw,
                        fee_pct: fee,
                        slip_pct: Decimal::zero(),
                        net_pct: net,
                    },
                ),
            )
        },
    }
}

// ---------------------------------------------------------------------------
// What the grid wants
// ---------------------------------------------------------------------------

/// A balance that is known and below the floor.
pub open spec fn runs_dry(available: Decimal, floor: Decimal) -> bool {
    available.units() > 0 && available.units() < floor.units()
}

/// What a venue has.
pub open spec fn available_on(balances: Map<Seq<char>, Decimal>, venue: Seq<char>) -> Decimal {
    if balances.contains_key(venue) {
        balances[venue]
    } else {
        lit(0, 0)
    }
}

/// Why a position must be closed at once, if it must: held too long, or a venue
/// of its runs dry.
pub open spec fn forced_reason(
    cfg: AppConfig,
    balances: Map<Seq<char>, Decimal>,
    pos: Position,
    now: Instant,
) -> Option<CloseReason> {
    let floor = cfg.sizing.balance_floor_usdc;
    if pos.qty.units() <= 0 {
        None
    } else if cfg.grid.max_hold_secs > 0 && elapsed(now, pos.opened_at) >= secs(
        cfg.grid.max_hold_secs as int,
    ) {
        Some(CloseReason::HoldTimeout)
    } else if floor.units() > 0 && (runs_dry(available_on(balances, pos.buy.0@), floor) || runs_dry(
        available_on(balances, pos.sell.0@),
        floor,
    )) {
        Some(CloseReason::BalanceFloor)
    } else {
        None
    }
}

/// All of a position closed.
pub open spec fn close_all(pos: Position, reason: CloseReason) -> Intent {
    Intent::Close { qty: pos.qty, grid: 0, reason, round_trip_pct: lit(0, 0) }
}

/// Closes a position in one go, whatever the grid and its persistence say.
pub fn force_exit_intent(
    cfg: &AppConfig,
    balance: &BalanceCache,
    pos: &Position,
    now: Instant,
) -> (r: Option<Intent>)
    ensures
        r == (match forced_reason(*cfg, balance.by_venue@, *pos, now) {
            Some(reason) => Some(close_all(*pos, reason)),
            None => None,
        }),
{
    if !pos.qty.is_positive() {
        return None;
    }
    if cfg.grid.max_hold_secs > 0 && pos.held_for(now).nanos >= Duration::from_secs(
        cfg.grid.max_hold_secs,
    ).nanos {
        return Some(
            Intent::Close {
                qty: pos.qty,
                grid: 0,
                reason: CloseReason::HoldTimeout,
                round_trip_pct: Decimal::zero(),
            },
        );
    }
    let floor = cfg.sizing.balance_floor_usdc;
    if floor.is_positive() {
        let buy_av = balance.venue_available(pos.buy.as_str());
        let sell_av = balance.venue_available(pos.sell.as_str());
        if (buy_av.is_positive() && buy_av < floor) || (sell_av.is_positive() && sell_av < floor) {
            return Some(
                Intent::Close {
                    qty: pos.qty,
                    grid: 0,
                    reason: CloseReason::BalanceFloor,
                    round_trip_pct: Decimal::zero(),
                },
            );
        }
    }
    None
}

/// What the windows say of a pair.
#[derive(Clone, Copy, Debug)]
pub struct Readings {
    /// The mean that the grid goes by.
    pub mu: Option<Decimal>,
    /// The spreads that can be traded.
    pub s_plus: Option<Decimal>,
    pub s_minus: Option<Decimal>,
    /// Both venues' own spreads are known.
    pub spreads_known: bool,
    pub held: bool,
}

#[derive(Clone, Copy, Debug, PartialEq, Eq, Structural)]
pub enum Reading {
    /// The engine is asked.
    Ask,
    /// The window is not full.
    Sampling,
    /// The venues' windows are not full.
    SpreadSampling,
    /// A spread cannot be traded.
    NoSpread,
}

/// Which of these holds: a pair that is held does not wait for the venues'
/// windows.
pub open spec fn reading_of(x: Readings) -> Reading {
    if x.mu is None {
        Reading::Sampling
    } else if x.s_plus is Some && x.s_minus is Some && (x.spreads_known || x.held) {
        Reading::Ask
    } else if !x.spreads_known && !x.held {
        Reading::SpreadSampling
    } else {
        Reading::NoSpread
    }
}

/// What is wanted of a slot: what must be, else what the engine says where it
/// can be asked; else nothing, and what the engine remembers of it is dropped.
pub fn want(
    engine: &mut WindowGridEngine,
    slot: &str,
    forced: Option<Intent>,
    x: Readings,
    k: i32,
    v0: &VenueId,
    v1: &VenueId,
    held_qty: Decimal,
    params: &WindowGridParams,
    now: Instant,
) -> (r: Result<(Reading, Intent), ArithError>)
    requires
        params.max_step > i32::MIN,
    ensures
        match forced {
            Some(intent) => final(engine)@ == old(engine)@ && r == Ok::<
                (Reading, Intent),
                ArithError,
            >((Reading::Ask, intent)),
            None => if reading_of(x) == Reading::Ask {
                let t = Tick {
                    k: k as int,
                    s_plus: x.s_plus->0,
                    s_minus: x.s_minus->0,
                    mu: x.mu->0,
                    left: *v0,
                    right: *v1,
                    held_qty,
                };
                final(engine)@ == state_after(old(engine)@, slot@, t, *params, now) && r == (
                match decision(old(engine)@, slot@, t, *params, now) {
                    Ok(i) => Ok((Reading::Ask, i)),
                    Err(e) => Err(e),
                })
            } else {
                final(engine)@ == cleared(old(engine)@, slot@) && r == Ok::<
                    (Reading, Intent),
                    ArithError,
                >((reading_of(x), Intent::Hold))
            },
        },
{
    if let Some(intent) = forced {
        return Ok((Reading::Ask, intent));
    }
    let reading = match (x.mu, x.s_plus, x.s_minus) {
        (None, _, _) => Reading::Sampling,
        (Some(mu), Some(sp), Some(sm)) => if x.spreads_known || x.held {
            let intent = engine.decide(slot, k, sp, sm, mu, v0, v1, held_qty, params, now)?;
            return Ok((Reading::Ask, intent));
        } else {
            Reading::SpreadSampling
        },
        _ => if !x.spreads_known && !x.held {
            Reading::SpreadSampling
        } else {
            Reading::NoSpread
        },
    };
    engine.forget(slot);
    Ok((reading, Intent::Hold))
}

/// What a round trip gives, put into the record of a close.
pub open spec fn recorded(intent: Intent, entry_net: Option<Decimal>, view: Option<CloseView>) -> Result<
    Intent,
    ArithError,
> {
    match (intent, entry_net, view) {
        (Intent::Close { qty, grid, reason, round_trip_pct }, Some(e), Some(v)) => match sum(
            Ok(e),
            Ok(v.exit_net_pct),
        ) {
            Ok(rt) => Ok(Intent::Close { qty, grid, reason, round_trip_pct: rt }),
            Err(e) => Err(e),
        },
        _ => Ok(intent),
    }
}

pub fn with_round_trip(intent: Intent, entry_net: Option<Decimal>, view: Option<CloseView>) -> (r:
    Result<Intent, ArithError>)
    ensures
        r == recorded(intent, entry_net, view),
{
    match (entry_net, view) {
        (Some(e), Some(v)) => match intent {
            Intent::Close { qty, grid, reason, round_trip_pct: _ } => {
                let rt = e.plus(v.exit_net_pct)?;
                Ok(Intent::Close { qty, grid, reason, round_trip_pct: rt })
            },
            other => Ok(other),
        },
        _ => Ok(intent),
    }
}

// ---------------------------------------------------------------------------
// What becomes of it
// ---------------------------------------------------------------------------

/// What a venue can carry of a leg.
pub open spec fn margin_on(
    cfg: AppConfig,
    balances: Map<Seq<char>, Decimal>,
    bound: Map<Seq<char>, Decimal>,
    venue: Seq<char>,
) -> LegMargin {
    LegMargin {
        available_usdc: available_on(balances, venue),
        leverage: leverage_of(cfg.sizing, venue),
        reserved_usdc: available_on(bound, venue),
    }
}

pub fn leg_margin(
    cfg: &AppConfig,
    balance: &BalanceCache,
    bound: &KeyMap<Decimal>,
    venue: &str,
) -> (r: LegMargin)
    ensures
        r == margin_on(*cfg, balance.by_venue@, bound@, venue@),
{
    let reserved_usdc = match bound.get(venue) {
        Some(d) => *d,
        None => Decimal::zero(),
    };
    LegMargin {
        available_usdc: balance.venue_available(venue),
        leverage: cfg.leverage_for(venue),
        reserved_usdc,
    }
}

/// Why an opening cannot be carried, if it cannot: margin or depth, and then
/// whether the books give a spread at all at its quantity. A close is never held
/// up by this.
pub fn open_refusal(
    cfg: &AppConfig,
    balance: &BalanceCache,
    bound: &KeyMap<Decimal>,
    buy: &VenueId,
    sell: &VenueId,
    qty: Decimal,
    v0: &VenueId,
    b0: &Bbo,
    b1: &Bbo,
    mid: Decimal,
    has_spread: bool,
) -> (r: Verdict)
    ensures
        said(r) == ({
            let (bb, sb) = by_direction(buy.0@, v0.0@, *b0, *b1);
            or_else(
                capacity(
                    cfg.sizing.margin_utilization_pct,
                    cfg.sizing.depth_pct,
                    qty,
                    margin_on(*cfg, balance.by_venue@, bound@, buy.0@),
                    margin_on(*cfg, balance.by_venue@, bound@, sell.0@),
                    bb,
                    sb,
                    mid,
                ),
                if has_spread {
                    Ok(None)
                } else {
                    Ok(Some("thin_book"@))
                },
            )
        }),
{
    let (bb, sb) = books_for_direction(buy, v0, b0, b1);
    let verdict = check_capacity(
        &cfg.sizing,
        qty,
        leg_margin(cfg, balance, bound, buy.as_str()),
        leg_margin(cfg, balance, bound, sell.as_str()),
        bb,
        sb,
        mid,
    )?;
    match verdict {
        Err(word) => Ok(Err(word)),
        Ok(_) => if has_spread {
            Ok(Ok(()))
        } else {
            Ok(Err("thin_book"))
        },
    }
}

/// Why an opening is not carried out although it could be.
#[derive(Clone, Copy, Debug, PartialEq, Eq, Structural)]
pub enum OpenSkip {
    NotStarted,
    NakedExposure,
    KeysMissing,
}

/// What stands in the way of opening.
#[derive(Clone, Copy, Debug)]
pub struct OpenFacts {
    pub enabled: bool,
    /// The coin stands open on one side, or is just being hedged.
    pub naked: bool,
    pub keys_ready: bool,
}

pub open spec fn open_skip(f: OpenFacts) -> Option<OpenSkip> {
    if !f.enabled {
        Some(OpenSkip::NotStarted)
    } else if f.naked {
        Some(OpenSkip::NakedExposure)
    } else if !f.keys_ready {
        Some(OpenSkip::KeysMissing)
    } else {
        None
    }
}

/// Opening is held back where it must be; closing is not.
pub fn permit(intent: Intent, f: OpenFacts) -> (r: (Intent, Option<OpenSkip>))
    ensures
        r == (if intent is Open && open_skip(f) is Some {
            (Intent::Hold, open_skip(f))
        } else {
            (intent, None)
        }),
{
    let is_open = match &intent {
        Intent::Open { .. } => true,
        _ => false,
    };
    if !is_open {
        return (intent, None);
    }
    if !f.enabled {
        (Intent::Hold, Some(OpenSkip::NotStarted))
    } else if f.naked {
        (Intent::Hold, Some(OpenSkip::NakedExposure))
    } else if !f.keys_ready {
        (Intent::Hold, Some(OpenSkip::KeysMissing))
    } else {
        (intent, None)
    }
}

/// What is done with a slot in the end.
#[derive(Debug)]
pub enum PairStep {
    /// Nothing is wanted.
    Rest,
    /// An order for the slot is under way already.
    Opening,
    /// Another slot is being traded: opening waits, closing does not.
    Queue,
    /// The pair waits for a person. Neither opening nor closing goes by a memory
    /// that cannot be trusted.
    Blocked,
    /// Carried out; with what ended a wait, if something did.
    Trade(Intent, Option<String>),
}

/// What is known when an order is about to go out.
#[derive(Clone, Copy, Debug)]
pub struct GateFacts {
    pub is_pending: bool,
    pub in_flight: bool,
    /// The step of the position, where there is one.
    pub grid: Option<i32>,
    /// What is held and what it earned, where there is a position that the
    /// venues confirm and whose wait allows it to be closed.
    pub flatten: Option<(Decimal, Decimal)>,
    pub view: Option<CloseView>,
}

/// What a position that may only be closed earns on the way.
pub open spec fn flatten_trip(entry_net: Decimal, view: Option<CloseView>) -> Calc {
    match view {
        Some(v) => sum(Ok(entry_net), Ok(v.exit_net_pct)),
        None => Ok(lit(0, 0)),
    }
}

/// What a step is.
pub open spec fn stepped(
    m: GuardModel,
    pair: Seq<char>,
    intent: Intent,
    f: GateFacts,
    now: Instant,
) -> Result<Option<Intent>, ArithError> {
    if !waits_on(m, pair, f.grid, now) {
        Ok(Some(intent))
    } else if intent is Close && f.flatten is Some {
        match flatten_trip((f.flatten->0).1, f.view) {
            Ok(rt) => Ok(
                Some(
                    Intent::Close {
                        qty: (f.flatten->0).0,
                        grid: 0,
                        reason: CloseReason::GridReduce,
                        round_trip_pct: rt,
                    },
                ),
            ),
            Err(e) => Err(e),
        }
    } else {
        Ok(None)
    }
}

/// `r` and `after` are what an intent and a guard lead to.
pub open spec fn passes(
    m: GuardModel,
    after: GuardModel,
    pair: Seq<char>,
    intent: Intent,
    f: GateFacts,
    now: Instant,
    r: Result<PairStep, ArithError>,
) -> bool {
    let asked = !(intent is Hold) && !f.is_pending && !(intent is Open && f.in_flight);
    let resumes = asked && m.pairs.contains_key(pair) && !waits_on(m, pair, f.grid, now);
    &&& after == (if resumes {
        resumed(m, pair)
    } else {
        m
    })
    &&& if intent is Hold {
        r matches Ok(PairStep::Rest)
    } else if f.is_pending {
        r matches Ok(PairStep::Opening)
    } else if intent is Open && f.in_flight {
        r matches Ok(PairStep::Queue)
    } else {
        match stepped(m, pair, intent, f, now) {
            Err(_) => r is Err,
            Ok(None) => r matches Ok(PairStep::Blocked),
            Ok(Some(i)) => r matches Ok(PairStep::Trade(j, why)) && j == i && (match why {
                Some(t) => resumes && t@ == why_resumed(m.pairs[pair], f.grid, now),
                None => !resumes,
            }),
        }
    }
}

/// The last question before an order.
pub fn last_gate(
    guard: &mut InterventionGuard,
    pair_id: &str,
    intent: Intent,
    f: GateFacts,
    now: Instant,
) -> (r: Result<PairStep, ArithError>)
    ensures
        passes(old(guard)@, final(guard)@, pair_id@, intent, f, now, r),
{
    let kind: u8 = match &intent {
        Intent::Hold => 0,
        Intent::Open { .. } => 1,
        Intent::Close { .. } => 2,
    };
    if kind == 0 {
        return Ok(PairStep::Rest);
    }
    if f.is_pending {
        return Ok(PairStep::Opening);
    }
    if kind == 1 && f.in_flight {
        return Ok(PairStep::Queue);
    }
    match guard.should_block(pair_id, f.grid, now) {
        Gate::Allow => Ok(PairStep::Trade(intent, None)),
        Gate::Resumed(why) => Ok(PairStep::Trade(intent, Some(why))),
        Gate::Block { .. } => {
            if kind == 2 {
                if let Some((qty, entry_net)) = f.flatten {
                    let rt = match f.view {
                        Some(v) => entry_net.plus(v.exit_net_pct)?,
                        None => Decimal::zero(),
                    };
                    return Ok(
                        PairStep::Trade(
                            Intent::Close {
                                qty,
                                grid: 0,
                                reason: CloseReason::GridReduce,
                                round_trip_pct: rt,
                            },
                            None,
                        ),
                    );
                }
            }
            Ok(PairStep::Blocked)
        },
    }
}

/// The quantity of an order, at most `max_qty` while testing.
pub fn capped_qty(test_mode: bool, max_qty: Decimal, qty: Decimal) -> (r: Decimal)
    ensures
        r == (if test_mode && qty.units() > max_qty.units() {
            max_qty
        } else {
            qty
        }),
{
    if test_mode && qty > max_qty {
        max_qty
    } else {
        qty
    }
}

/// What is held after an order of `qty`.
pub fn qty_after(held: Decimal, qty: Decimal, is_open: bool) -> (r: Calc)
    ensures
        r == (if is_open {
            sum(Ok(held), Ok(qty))
        } else {
            match diff(Ok(held), Ok(qty)) {
                Ok(d) => Ok(dmax(d, lit(0, 0))),
                Err(e) => Err(e),
            }
        }),
        // An opening adds its quantity, a close takes it away, down to nothing at most.
        is_open && sums_exactly(held, qty) ==> (r matches Ok(d) && d.units() == held.units()
            + qty.units()),
        !is_open && sums_exactly(held, dneg(qty)) ==> (r matches Ok(d) && d.units() == (
        if held.units() > qty.units() {
            held.units() - qty.units()
        } else {
            0
        })),
{
    if is_open {
        let r = held.plus(qty);
        proof {
            if sums_exactly(held, qty) {
                lemma_adds_exactly(held, qty);
            }
        }
        r
    } else {
        let d = held.minus(qty);
        proof {
            if sums_exactly(held, dneg(qty)) {
                lemma_subtracts_exactly(held, qty);
            }
        }
        Ok(d?.max(Decimal::zero()))
    }
}

// ---------------------------------------------------------------------------
// Residues
// ---------------------------------------------------------------------------

/// How long a residue may lie before a person is asked.
pub const DUST_SECS: u64 = 300;

/// A position that is too small to be closed.
pub open spec fn is_dust(qty: Option<Decimal>, min_qty: Decimal) -> bool {
    qty is Some && qty->0.units() > 0 && min_qty.units() > 0 && qty->0.units() < min_qty.units()
}

/// Since when residues lie.
pub open spec fn dust_after(
    m: Map<Seq<char>, Instant>,
    slot: Seq<char>,
    dust: bool,
    now: Instant,
) -> Map<Seq<char>, Instant> {
    if !dust {
        m.remove(slot)
    } else if m.contains_key(slot) {
        m
    } else {
        m.insert(slot, now)
    }
}

/// Notes a residue and says whether it has lain too long.
pub fn note_dust(
    since: &mut KeyMap<Instant>,
    slot: &str,
    qty: Option<Decimal>,
    min_qty: Decimal,
    now: Instant,
) -> (r: bool)
    ensures
        final(since)@ == dust_after(old(since)@, slot@, is_dust(qty, min_qty), now),
        r == (is_dust(qty, min_qty) && elapsed(now, final(since)@[slot@]) > secs(
            DUST_SECS as int,
        )),
{
    let ghost start = since@;
    let dust = match qty {
        Some(q) => q.is_positive() && min_qty.is_positive() && q < min_qty,
        None => false,
    };
    if !dust {
        since.remove(slot);
        return false;
    }
    let known = match since.get(slot) {
        Some(t) => Some(*t),
        None => None,
    };
    let t = match known {
        Some(t) => t,
        None => {
            since.insert(slot, now);
            now
        },
    };
    now.since(t).nanos > Duration::from_secs(DUST_SECS).nanos
}

// ---------------------------------------------------------------------------
// Resting orders
// ---------------------------------------------------------------------------

/// How long a resting order may take in all, in nanoseconds: every round with a
/// second to cancel it, and four minutes for the venue's side to answer.
pub open spec fn deadline_of(limit_timeout_ms: int, rounds: int) -> int {
    let r = if rounds < 1 {
        1
    } else {
        rounds
    };
    let t = if limit_timeout_ms < 200 {
        200
    } else {
        limit_timeout_ms
    };
    (t + 1000) * r * NANOS_PER_MILLI + 240 * NANOS_PER_SEC
}

pub fn pending_hard_deadline(cfg: &AppConfig) -> (r: Duration)
    ensures
        r.nanos == deadline_of(
            cfg.order.limit_timeout_ms as int,
            cfg.order.limit_retry_count as int,
        ),
{
    let rounds: u128 = if cfg.order.limit_retry_count < 1 {
        1
    } else {
        cfg.order.limit_retry_count as u128
    };
    let t: u128 = if cfg.order.limit_timeout_ms < 200 {
        200
    } else {
        cfg.order.limit_timeout_ms as u128
    };
    assert((t + 1000) * rounds <= 0x1_0000_0000_0000_1000 * 0x1_0000_0000) by (nonlinear_arith)
        requires
            t <= 0xffff_ffff_ffff_ffff,
            1 <= rounds <= 0xffff_ffff,
    ;
    assert((t + 1000) * rounds >= 0) by (nonlinear_arith)
        requires
            t >= 0,
            rounds >= 1,
    ;
    let ms: u128 = (t + 1000) * rounds;
    Duration { nanos: ms * NANOS_PER_MILLI + 240 * NANOS_PER_SEC }
}

/// What is known of a resting order.
#[derive(Clone, Copy, Debug)]
pub struct WatchFacts {
    /// Longer ago than the deadline.
    pub overdue: bool,
    /// It was asked to be cancelled before.
    pub cancelling: bool,
    pub burst: bool,
    pub is_open: bool,
    /// Whether the spread still carries it; none where it cannot be read.
    pub spread_holds: Option<bool>,
}

#[derive(Clone, Copy, Debug, PartialEq, Eq, Structural)]
pub struct WatchStep {
    /// It is to be cancelled.
    pub cancel: bool,
    /// A person is asked: it overran its time and was not being cancelled yet.
    pub alarm: bool,
    /// The spread went away.
    pub gone: bool,
}

/// An overdue order is cancelled. One that opens is cancelled when its spread is
/// gone; one that closes is not: half a close would leave one leg. A spread that
/// cannot be read is not taken for gone.
pub open spec fn watched(f: WatchFacts) -> WatchStep {
    let cancelling = f.cancelling || f.overdue;
    let gone = !f.burst && !cancelling && f.is_open && f.spread_holds == Some(false);
    WatchStep { cancel: cancelling || gone, alarm: f.overdue && !f.cancelling, gone }
}

pub fn watch_pending(f: WatchFacts) -> (r: WatchStep)
    ensures
        r == watched(f),
{
    let cancelling = f.cancelling || f.overdue;
    let lost = match f.spread_holds {
        Some(b) => !b,
        None => false,
    };
    let gone = !f.burst && !cancelling && f.is_open && lost;
    WatchStep { cancel: cancelling || gone, alarm: f.overdue && !f.cancelling, gone }
}

/// The least spread that an opening order rests for: the width of a step times the
/// hysteresis; none is asked for without settings.
pub open spec fn floor_of(cfg: AppConfig, pair: Pair) -> Calc {
    match cfg.grid_of(
        pair.legs@[0].base@,
        pair.legs@[0].venue.0@,
        pair.legs@[1].venue.0@,
        dmax(pair.legs@[0].min_qty, pair.legs@[1].min_qty),
    ) {
        Ok(Some(g)) => prod(Ok(g.step), Ok(cfg.grid.step_hysteresis)),
        Ok(None) => Ok(lit(0, 0)),
        Err(e) => Err(e),
    }
}

pub fn resting_floor(cfg: &AppConfig, pair: &Pair) -> (r: Calc)
    ensures
        r == floor_of(*cfg, *pair),
{
    let grid = cfg.grid_for(
        pair.legs[0].base.as_str(),
        pair.legs[0].venue.as_str(),
        pair.legs[1].venue.as_str(),
        pair.min_qty(),
    )?;
    match grid {
        Some(g) => g.step.times(cfg.grid.step_hysteresis),
        None => Ok(Decimal::zero()),
    }
}

/// What the page says of a resting order.
pub open spec fn resting_word(cancel: bool, burst: bool) -> Seq<char> {
    if cancel {
        "撤单中"@
    } else if burst {
        "Burst挂单"@
    } else {
        "挂单中"@
    }
}

/// Looks at an order that has rested since `since`: what is done with it, and what the
/// page says.
pub fn watch_one_pending(
    cfg: &AppConfig,
    since: Instant,
    cancelling: bool,
    burst: bool,
    is_open: bool,
    spread_holds: Option<bool>,
    now: Instant,
) -> (r: (WatchStep, &'static str))
    ensures
        r.0 == watched(
            WatchFacts {
                overdue: elapsed(now, since) > deadline_of(
                    cfg.order.limit_timeout_ms as int,
                    cfg.order.limit_retry_count as int,
                ),
                cancelling,
                burst,
                is_open,
                spread_holds,
            },
        ),
        r.1@ == resting_word(r.0.cancel, burst),
{
    let overdue = now.since(since).nanos > pending_hard_deadline(cfg).nanos;
    let step = watch_pending(WatchFacts { overdue, cancelling, burst, is_open, spread_holds });
    let word = if step.cancel {
        "撤单中"
    } else if burst {
        "Burst挂单"
    } else {
        "挂单中"
    };
    (step, word)
}

// ---------------------------------------------------------------------------
// Words
// ---------------------------------------------------------------------------

/// A step with its sign.
pub open spec fn step_text(k: int) -> Seq<char> {
    if k > 0 {
        "+"@ + number_text(k)
    } else {
        number_text(k)
    }
}

pub fn fmt_step(k: i32) -> (r: String)
    ensures
        r@ == step_text(k as int),
{
    let n = crate::text::int_text(k as i64);
    if k > 0 {
        crate::text::joined("+", n.as_str())
    } else {
        n
    }
}

pub open spec fn intent_word(i: Intent) -> Seq<char> {
    match i {
        Intent::Open { .. } => "open"@,
        Intent::Close { .. } => "close"@,
        Intent::Hold => "hold"@,
    }
}

pub fn intent_label(intent: &Intent) -> (r: &'static str)
    ensures
        r@ == intent_word(*intent),
{
    match intent {
        Intent::Open { .. } => "open",
        Intent::Close { .. } => "close",
        Intent::Hold => "hold",
    }
}

pub open spec fn intent_status(i: Intent) -> Seq<char> {
    match i {
        Intent::Open { .. } => "开仓中"@,
        Intent::Close { .. } => "平仓中"@,
        Intent::Hold => "持有"@,
    }
}

pub fn ui_intent_label(intent: &Intent) -> (r: &'static str)
    ensures
        r@ == intent_status(*intent),
{
    match intent {
        Intent::Open { .. } => "开仓中",
        Intent::Close { .. } => "平仓中",
        Intent::Hold => "持有",
    }
}

/// The words for what keeps a pair from being traded; a reason without words of
/// its own stands for itself.
pub open spec fn reason_words(reason: Seq<char>) -> Seq<char> {
    if reason == "thin_book"@ {
        "娣卞害涓嶈冻"@
    } else if reason == "stale"@ {
        "鐩樺彛杩囨湡"@
    } else if reason == "invalid_bbo"@ {
        "鐩樺彛闈炴硶"@
    } else if reason == "no_min_qty"@ {
        "鏃犳渶灏忛噺"@
    } else if reason == "no_margin"@ || reason == "no_capacity"@ {
        "保证金不足"@
    } else if reason == "no_mid"@ {
        "无中价"@
    } else if reason == "no_size"@ {
        "鏁伴噺鏃犳晥"@
    } else if reason == "in_flight"@ {
        "鎺掗槦"@
    } else if reason == "intervention"@ {
        "浜哄伐浠嬪叆"@
    } else if reason == "naked_exposure"@ {
        "鍗曡竟鏁炲彛"@
    } else if reason == "keys_missing"@ {
        "缺密钥"@
    } else if reason == "concurrent_limit"@ {
        "执行占用中"@
    } else if reason == "no_plan"@ {
        "鏃犳硶瑙勫垝"@
    } else if reason == "no_baseline"@ {
        "无底价"@
    } else {
        reason
    }
}

pub fn skip_reason_label(reason: &str) -> (r: String)
    ensures
        r@ == reason_words(reason@),
{
    if same(reason, "thin_book") {
        "娣卞害涓嶈冻".to_owned()
    } else if same(reason, "stale") {
        "鐩樺彛杩囨湡".to_owned()
    } else if same(reason, "invalid_bbo") {
        "鐩樺彛闈炴硶".to_owned()
    } else if same(reason, "no_min_qty") {
        "鏃犳渶灏忛噺".to_owned()
    } else if same(reason, "no_margin") || same(reason, "no_capacity") {
        "保证金不足".to_owned()
    } else if same(reason, "no_mid") {
        "无中价".to_owned()
    } else if same(reason, "no_size") {
        "鏁伴噺鏃犳晥".to_owned()
    } else if same(reason, "in_flight") {
        "鎺掗槦".to_owned()
    } else if same(reason, "intervention") {
        "浜哄伐浠嬪叆".to_owned()
    } else if same(reason, "naked_exposure") {
        "鍗曡竟鏁炲彛".to_owned()
    } else if same(reason, "keys_missing") {
        "缺密钥".to_owned()
    } else if same(reason, "concurrent_limit") {
        "执行占用中".to_owned()
    } else if same(reason, "no_plan") {
        "鏃犳硶瑙勫垝".to_owned()
    } else if same(reason, "no_baseline") {
        "无底价".to_owned()
    } else {
        reason.to_owned()
    }
}

/// What a row says while both legs are placed.
pub open spec fn inflight_status(is_pending: bool, held: bool) -> Seq<char> {
    if is_pending {
        "开仓中"@
    } else if held {
        "平仓中"@
    } else {
        "下单中"@
    }
}

pub fn inflight_label(is_pending: bool, held: bool) -> (r: &'static str)
    ensures
        r@ == inflight_status(is_pending, held),
{
    if is_pending {
        "开仓中"
    } else if held {
        "平仓中"
    } else {
        "下单中"
    }
}

// ---------------------------------------------------------------------------
// Laws
// ---------------------------------------------------------------------------

/// A slot that holds something or has an order under way is looked at even when
/// trading is switched off.
pub proof fn law_live_slots_are_looked_at(f: EntryFacts)
    requires
        is_live(f),
    ensures
        entered(f) != EntryStep::Idle,
        entered(f) != EntryStep::NotChosen || !f.held,
{
}

/// While a pair waits for a person nothing is opened, and nothing is closed but
/// what the venues confirm, and that in full.
pub proof fn law_waiting_pair_opens_nothing(
    m: GuardModel,
    pair: Seq<char>,
    intent: Intent,
    f: GateFacts,
    now: Instant,
)
    requires
        waits_on(m, pair, f.grid, now),
    ensures
        stepped(m, pair, intent, f, now) matches Ok(Some(i)) ==> i is Close && f.flatten is Some
            && i->Close_qty == (f.flatten->0).0 && i->Close_grid == 0,
{
}

/// An order that closes is cancelled only when it overruns its time.
pub proof fn law_closing_order_runs_its_course(f: WatchFacts)
    requires
        !f.is_open,
        !f.overdue,
        !f.cancelling,
    ensures
        !watched(f).cancel,
{
}

/// What a pair that holds nothing shows: the spread of its middles, and that less what both
/// venues take, as if the right venue were bought and the left one sold.
pub proof fn law_flat_view_is_the_mid_spread_less_both_fees(
    cfg: AppConfig,
    v0: VenueId,
    v1: VenueId,
    b0: Bbo,
    b1: Bbo,
    raw: Decimal,
)
    requires
        mid_spread(b0, b1) == Ok::<Option<Decimal>, ArithError>(Some(raw)),
        adds_exactly(Ok(cfg.taker(v0.0@)), Ok(cfg.taker(v1.0@))),
        subtracts_exactly(Ok(raw), sum(Ok(cfg.taker(v0.0@)), Ok(cfg.taker(v1.0@)))),
    ensures
        flat_view(cfg, v0, v1, b0, b1) matches Ok(Some(n)) && {
            let fee = cfg.taker(v0.0@).units() + cfg.taker(v1.0@).units();
            &&& n.buy == v1 && n.sell == v0
            &&& n.raw_pct == raw && n.fee_pct.units() == fee && n.slip_pct.units() == 0
            &&& n.net_pct.units() == raw.units() - fee
        },
{
    broadcast use lemma_lit, lemma_sign;

}

/// The books of a pair go into its windows: the spread of the middles, left over right, under the
/// slot, and each venue's own spread under that venue.
pub proof fn law_books_go_into_their_own_windows(
    w: WindowModel,
    v: VenueSpreadModel,
    slot: Seq<char>,
    v0: Seq<char>,
    v1: Seq<char>,
    b0: Bbo,
    b1: Bbo,
    now_ms: int,
    other: Seq<char>,
)
    requires
        v0 != v1,
        other != v0,
        other != v1,
    ensures
        windows_after(w, v, slot, v0, v1, b0, b1, now_ms) matches Ok((x, y)) ==> {
            &&& mid_spread(b0, b1) matches Ok(Some(s)) ==> x == window_seen(w, slot, now_ms, s)
            &&& own_spread_mid(b0) matches Ok(Some(c)) ==> y.venues.contains_key(v0)
                && y.venues[v0] == venue_seen(v, v0, now_ms, c).venues[v0]
            &&& own_spread_mid(b1) matches Ok(Some(c)) ==> y.venues.contains_key(v1)
                && y.venues[v1] == venue_seen(v, v1, now_ms, c).venues[v1]
            &&& y.venues.contains_key(other) <==> v.venues.contains_key(other)
            &&& v.venues.contains_key(other) ==> y.venues[other] == v.venues[other]
        },
{
}

/// The book that is bought on comes first, whichever side of the pair it is.
pub proof fn law_the_bought_book_comes_first(v0: Seq<char>, v1: Seq<char>, b0: Bbo, b1: Bbo)
    requires
        v0 != v1,
    ensures
        by_direction(v0, v0, b0, b1) == (b0, b1),
        by_direction(v1, v0, b0, b1) == (b1, b0),
{
}

/// The record of a round trip is what opening earned and what closing earns together.
pub proof fn law_round_trip_is_both_ways_together(
    qty: Decimal,
    grid: i32,
    reason: CloseReason,
    was: Decimal,
    entry_net: Decimal,
    view: CloseView,
)
    requires
        adds_exactly(Ok(entry_net), Ok(view.exit_net_pct)),
    ensures
        recorded(
            (Intent::Close { qty, grid, reason, round_trip_pct: was }),
            Some(entry_net),
            Some(view),
        ) matches Ok(Intent::Close { qty: q, grid: g, reason: why, round_trip_pct: rt }) && q == qty
            && g == grid && why == reason && rt.units() == entry_net.units()
            + view.exit_net_pct.units(),
        value(flatten_trip(entry_net, Some(view))) == entry_net.units()
            + view.exit_net_pct.units(),
{
}

/// The width of a step goes by the mean of both venues' own spreads, once both are known.
pub proof fn law_step_width_goes_by_both_venues(
    cfg: AppConfig,
    v: VenueSpreadModel,
    v0: Seq<char>,
    v1: Seq<char>,
    a: Decimal,
    b: Decimal,
    fee: Decimal,
)
    requires
        venue_mean(v, v0) == Ok::<Option<Decimal>, ArithError>(Some(a)),
        venue_mean(v, v1) == Ok::<Option<Decimal>, ArithError>(Some(b)),
        cfg.round_trip_taker(v0, v1) == Ok::<Decimal, ArithError>(fee),
        halves_exactly(Ok(a), Ok(b)),
    ensures
        delta_inputs(cfg, v, v0, v1) matches Ok((f, Some(c))) && f == fee && 2 * c.units()
            == a.units() + b.units(),
{
    lemma_half(Ok(a), Ok(b));
}

/// A position is closed at once where it has been held for the longest time or longer, or where
/// one of its venues has less than the floor; and then all of it.
pub proof fn law_a_forced_close_takes_all(
    cfg: AppConfig,
    balances: Map<Seq<char>, Decimal>,
    pos: Position,
    now: Instant,
)
    requires
        pos.qty.units() > 0,
    ensures
        ({
            let long = cfg.grid.max_hold_secs > 0 && elapsed(now, pos.opened_at) >= secs(
                cfg.grid.max_hold_secs as int,
            );
            let floor = cfg.sizing.balance_floor_usdc.units();
            let a = available_on(balances, pos.buy.0@).units();
            let b = available_on(balances, pos.sell.0@).units();
            let dry = (0 < a < floor) || (0 < b < floor);
            let r = forced_reason(cfg, balances, pos, now);
            &&& r is Some <==> long || dry
            &&& long ==> r == Some(CloseReason::HoldTimeout)
            &&& !long && dry ==> r == Some(CloseReason::BalanceFloor)
            &&& r matches Some(why) ==> (close_all(pos, why) matches Intent::Close {
                qty,
                grid,
                reason,
                round_trip_pct,
            } && qty == pos.qty && grid == 0 && reason == why)
        }),
{
}

/// A resting order is given its time for every round with a second more, at least a fifth of a
/// second a round and one round, and four minutes on top.
pub proof fn law_deadline_grows_with_the_rounds(limit_timeout_ms: int, rounds: int)
    requires
        limit_timeout_ms >= 200,
        rounds >= 1,
    ensures
        deadline_of(limit_timeout_ms, rounds) == 240 * secs(1) + rounds * crate::clock::millis(
            limit_timeout_ms + 1000,
        ),
        deadline_of(limit_timeout_ms, rounds + 1) - deadline_of(limit_timeout_ms, rounds)
            == crate::clock::millis(limit_timeout_ms + 1000),
        deadline_of(0, 0) == deadline_of(200, 1),
{
    let t = limit_timeout_ms + 1000;
    let n = NANOS_PER_MILLI as int;
    assert(t * rounds * n == rounds * (t * n)) by (nonlinear_arith);
    assert(t * (rounds + 1) * n == t * rounds * n + t * n) by (nonlinear_arith);
}

} // verus!
