//! What the end of an order does: to positions, to what stands open, and to the
//! pairs that wait for a person.

use crate::app::burst::{
    new_slot, on_round_failed, on_round_filled, round_done, round_failed, BurstSlot,
};
use crate::app::intervention::{
    marked, streak_of, Cause, GuardModel, InterventionGuard, SINGLE_LEG_STREAK_LIMIT,
};
use crate::app::naked::{
    has_model, lemma_naked_models, naked_models, record_naked_from_failed_hedge,
    record_unknown_naked, retain, signed, stays, Keep,
};
use crate::app::positions::{closed, is_open, opened, PosModel, PositionStore, StoreModel};
use crate::app::reconcile::{NakedExposure, NakedModel, NakedSource};
use crate::app::runtime::current_grid_level;
use crate::app::window_spread::{live_of, SlotModel, WindowBook, WindowModel};
use crate::clock::{Duration, Instant};
use crate::config::AppConfig;
use crate::decimal::{
    adds_exactly, decimal_of_text, diff, lemma_lit, lemma_sign, lit, multiplies_exactly, prod,
    subtracts_exactly, sum, value, whole, ArithError, Calc, Decimal,
};
use crate::domain::spread::{
    law_spread_is_gain_in_percent_of_the_cost, raw_spread, raw_spread_pct, spreads_exactly,
};
use crate::domain::symbol::VenueId;
use crate::domain::window_grid::{cleared, GridState, WindowGridEngine};
use crate::keymap::{KeyMap, KeySet};
use crate::text::{
    after_key, ascii_lower, chars_of, contains, has_part, int_text, joined, number_text,
    piece_after, text_of, to_ascii_lower,
};
use vstd::string::*;
use vstd::prelude::*;

verus! {

// ---------------------------------------------------------------------------
// How an order failed
// ---------------------------------------------------------------------------

#[derive(Clone, Copy, Debug, PartialEq, Eq, Structural)]
pub enum FailKind {
    /// One leg was filled and closed again.
    EmergencyClosed,
    /// Whether a leg was filled is not known.
    SecondLegUnknown,
    /// One leg was filled and closing it again failed.
    EmergencyCloseFailed,
    /// One leg was filled.
    NakedFirstLeg,
    QuoteLostRace,
    Stopped,
    ZeroFill,
    Other,
}

/// What the text of an error says, by the first of the words that stand in it.
pub open spec fn failure(err: Seq<char>) -> FailKind {
    if has_part(err, "EMERGENCY_CLOSED"@) {
        FailKind::EmergencyClosed
    } else if has_part(err, "SECOND_LEG_UNKNOWN"@) {
        FailKind::SecondLegUnknown
    } else if has_part(err, "NAKED_FIRST_LEG"@) {
        if has_part(ascii_lower(err), "close failed"@) || has_part(err, "emergency"@) {
            FailKind::EmergencyCloseFailed
        } else {
            FailKind::NakedFirstLeg
        }
    } else if has_part(err, "QUOTE_LOST_RACE"@) {
        FailKind::QuoteLostRace
    } else if has_part(err, "ARB_STOPPED"@) {
        FailKind::Stopped
    } else if has_part(err, "limit_zero_fill"@) {
        FailKind::ZeroFill
    } else {
        FailKind::Other
    }
}

pub fn fail_kind(err: &str) -> (r: FailKind)
    ensures
        r == failure(err@),
{
    if contains(err, "EMERGENCY_CLOSED") {
        FailKind::EmergencyClosed
    } else if contains(err, "SECOND_LEG_UNKNOWN") {
        FailKind::SecondLegUnknown
    } else if contains(err, "NAKED_FIRST_LEG") {
        if contains(to_ascii_lower(err).as_str(), "close failed") || contains(err, "emergency") {
            FailKind::EmergencyCloseFailed
        } else {
            FailKind::NakedFirstLeg
        }
    } else if contains(err, "QUOTE_LOST_RACE") {
        FailKind::QuoteLostRace
    } else if contains(err, "ARB_STOPPED") {
        FailKind::Stopped
    } else if contains(err, "limit_zero_fill") {
        FailKind::ZeroFill
    } else {
        FailKind::Other
    }
}

/// A number ends here.
pub open spec fn is_stop(c: char) -> bool {
    c == ' ' || c == ';' || c == ',' || c == ')'
}

/// What stands before the first stop.
pub open spec fn up_to_stop(s: Seq<char>) -> Seq<char>
    decreases s.len(),
{
    if s.len() == 0 || is_stop(s[0]) {
        Seq::empty()
    } else {
        seq![s[0]] + up_to_stop(s.drop_first())
    }
}

fn token(s: &str) -> (r: String)
    ensures
        r@ == up_to_stop(s@),
{
    let x = chars_of(s);
    let mut out: Vec<char> = Vec::new();
    let mut i: usize = 0;
    proof {
        assert(s@.skip(0) =~= s@);
        assert(out@ + up_to_stop(s@.skip(0)) =~= up_to_stop(s@));
    }
    while i < x.len()
        invariant
            x@ == s@,
            i <= x.len(),
            up_to_stop(s@) == out@ + up_to_stop(s@.skip(i as int)),
        decreases x.len() - i,
    {
        let c = x[i];
        let ghost rest = s@.skip(i as int);
        proof {
            assert(rest.drop_first() =~= s@.skip(i + 1));
        }
        if c == ' ' || c == ';' || c == ',' || c == ')' {
            proof {
                assert(up_to_stop(rest) =~= Seq::empty());
                assert(up_to_stop(s@) =~= out@);
            }
            return text_of(out);
        }
        let ghost before = out@;
        out.push(c);
        proof {
            assert(before + (seq![c] + up_to_stop(s@.skip(i + 1))) =~= out@ + up_to_stop(
                s@.skip(i + 1),
            ));
        }
        i = i + 1;
    }
    proof {
        assert(up_to_stop(s@.skip(i as int)) =~= Seq::empty());
        assert(up_to_stop(s@) =~= out@);
    }
    text_of(out)
}

/// The number behind `key`, where it is above zero.
pub open spec fn number_after(err: Seq<char>, key: Seq<char>) -> Option<Decimal> {
    match piece_after(err, key) {
        None => None,
        Some(rest) => match decimal_of_text(up_to_stop(rest)) {
            Some(d) => if d.units() > 0 {
                Some(d)
            } else {
                None
            },
            None => None,
        },
    }
}

fn positive_after(err: &str, key: &str) -> (r: Option<Decimal>)
    ensures
        r == number_after(err@, key@),
{
    match after_key(err, key) {
        None => None,
        Some(rest) => match Decimal::parse(token(rest).as_str()) {
            Some(d) => if d.is_positive() {
                Some(d)
            } else {
                None
            },
            None => None,
        },
    }
}

/// The quantity that an error tells of: what is not hedged, else what was
/// filled, else `fallback`.
pub open spec fn told_qty(err: Seq<char>, fallback: Decimal) -> Decimal {
    match number_after(err, "unhedged="@) {
        Some(d) => d,
        None => match number_after(err, "qty="@) {
            Some(d) => d,
            None => fallback,
        },
    }
}

pub fn qty_from_exec_err(err: &str, fallback: Decimal) -> (r: Decimal)
    ensures
        r == told_qty(err@, fallback),
{
    match positive_after(err, "unhedged=") {
        Some(d) => d,
        None => match positive_after(err, "qty=") {
            Some(d) => d,
            None => fallback,
        },
    }
}

// ---------------------------------------------------------------------------
// What follows
// ---------------------------------------------------------------------------

/// What the end of an order asks for.
#[derive(Clone, Copy, Debug)]
pub struct Effects {
    /// The fill is put into the position.
    pub fill: bool,
    /// The fills of one leg are no longer counted.
    pub clear_streak: bool,
    /// What stands open of the coin is dropped.
    pub drop_naked: bool,
    /// One leg was filled alone.
    pub note_single_leg: bool,
    /// So much of the first leg stands open.
    pub naked_qty: Option<Decimal>,
    /// So much of both legs may stand open.
    pub unknown_qty: Option<Decimal>,
    /// The pair waits for a person.
    pub wait: Option<Cause>,
    /// And once more, for an order that could not be cancelled.
    pub orphan: bool,
}

pub open spec fn no_effects() -> Effects {
    Effects {
        fill: false,
        clear_streak: false,
        drop_naked: false,
        note_single_leg: false,
        naked_qty: None,
        unknown_qty: None,
        wait: None,
        orphan: false,
    }
}

fn nothing() -> (r: Effects)
    ensures
        r == no_effects(),
{
    Effects {
        fill: false,
        clear_streak: false,
        drop_naked: false,
        note_single_leg: false,
        naked_qty: None,
        unknown_qty: None,
        wait: None,
        orphan: false,
    }
}

/// Both legs were filled. A success without a quantity is none. What the second
/// leg lacks stands open, and an order that could not be cancelled may yet be
/// filled: its pair waits.
pub open spec fn filled(hedged: Decimal, unhedged: Decimal, orphan: bool) -> Effects {
    if hedged.units() <= 0 {
        no_effects()
    } else {
        Effects {
            fill: true,
            clear_streak: !orphan,
            drop_naked: true,
            naked_qty: if unhedged.units() > 0 {
                Some(unhedged)
            } else {
                None
            },
            orphan,
            ..no_effects()
        }
    }
}

pub fn on_filled(hedged: Decimal, unhedged: Decimal, orphan: bool) -> (r: Effects)
    ensures
        r == filled(hedged, unhedged, orphan),
{
    let mut e = nothing();
    if !hedged.is_positive() {
        return e;
    }
    e.fill = true;
    e.clear_streak = !orphan;
    e.drop_naked = true;
    if unhedged.is_positive() {
        e.naked_qty = Some(unhedged);
    }
    e.orphan = orphan;
    e
}

/// The order failed.
pub open spec fn failed(err: Seq<char>, planned: Decimal) -> Effects {
    let base = Effects {
        orphan: has_part(err, "ORPHAN_ORDER"@),
        ..no_effects()
    };
    match failure(err) {
        FailKind::EmergencyClosed => Effects { note_single_leg: true, ..base },
        FailKind::SecondLegUnknown => Effects {
            unknown_qty: Some(told_qty(err, planned)),
            wait: Some(Cause::SecondLegUnknown),
            ..base
        },
        FailKind::EmergencyCloseFailed => Effects {
            naked_qty: Some(told_qty(err, planned)),
            wait: Some(Cause::EmergencyCloseFailed),
            ..base
        },
        FailKind::NakedFirstLeg => Effects {
            naked_qty: Some(told_qty(err, planned)),
            wait: Some(Cause::NakedLegUnrecoverable),
            ..base
        },
        FailKind::Stopped => Effects {
            naked_qty: if told_qty(err, lit(0, 0)).units() > 0 {
                Some(told_qty(err, lit(0, 0)))
            } else {
                None
            },
            ..base
        },
        _ => base,
    }
}

pub fn on_failed(err: &str, planned: Decimal) -> (r: Effects)
    ensures
        r == failed(err@, planned),
{
    let mut e = nothing();
    e.orphan = contains(err, "ORPHAN_ORDER");
    match fail_kind(err) {
        FailKind::EmergencyClosed => {
            e.note_single_leg = true;
        },
        FailKind::SecondLegUnknown => {
            e.unknown_qty = Some(qty_from_exec_err(err, planned));
            e.wait = Some(Cause::SecondLegUnknown);
        },
        FailKind::EmergencyCloseFailed => {
            e.naked_qty = Some(qty_from_exec_err(err, planned));
            e.wait = Some(Cause::EmergencyCloseFailed);
        },
        FailKind::NakedFirstLeg => {
            e.naked_qty = Some(qty_from_exec_err(err, planned));
            e.wait = Some(Cause::NakedLegUnrecoverable);
        },
        FailKind::Stopped => {
            let left = qty_from_exec_err(err, Decimal::zero());
            if left.is_positive() {
                e.naked_qty = Some(left);
            }
        },
        _ => {},
    }
    e
}

/// So many fills of one leg in a row are too many, even if each was made up for:
/// the pair waits.
pub fn streak_is_long(n: u32) -> (r: bool)
    ensures
        r == (n >= SINGLE_LEG_STREAK_LIMIT),
{
    n >= SINGLE_LEG_STREAK_LIMIT
}

// ---------------------------------------------------------------------------
// Fills
// ---------------------------------------------------------------------------

/// The prices at which was bought and sold.
pub open spec fn sides(first_is_buy: bool, first: Decimal, second: Decimal) -> (Decimal, Decimal) {
    if first_is_buy {
        (first, second)
    } else {
        (second, first)
    }
}

/// What opening earned before fees, by the prices of the fills; where one is not
/// known, what the decision went by.
pub open spec fn entry_raw(
    first_is_buy: bool,
    first: Decimal,
    second: Decimal,
    decided: Decimal,
) -> Calc {
    let (buy, sell) = sides(first_is_buy, first, second);
    match raw_spread(buy, sell) {
        Err(e) => Err(e),
        Ok(Some(raw)) => if buy.units() > 0 && sell.units() > 0 {
            Ok(raw)
        } else {
            Ok(decided)
        },
        Ok(None) => Ok(decided),
    }
}

pub fn realized_entry_raw(
    first_is_buy: bool,
    first: Decimal,
    second: Decimal,
    decided: Decimal,
) -> (r: Calc)
    ensures
        r == entry_raw(first_is_buy, first, second, decided),
{
    let (buy, sell) = if first_is_buy {
        (first, second)
    } else {
        (second, first)
    };
    match raw_spread_pct(buy, sell)? {
        Some(raw) => if buy.is_positive() && sell.is_positive() {
            Ok(raw)
        } else {
            Ok(decided)
        },
        None => Ok(decided),
    }
}

/// What opening earned after fees: both legs take, whatever the style.
pub open spec fn entry_net(
    cfg: AppConfig,
    buy_venue: Seq<char>,
    sell_venue: Seq<char>,
    first_is_buy: bool,
    first: Decimal,
    second: Decimal,
    decided: Decimal,
) -> Calc {
    let (buy, sell) = sides(first_is_buy, first, second);
    match (
        sum(Ok(cfg.taker(buy_venue)), Ok(cfg.taker(sell_venue))),
        raw_spread(buy, sell),
    ) {
        (Ok(fee), Ok(Some(raw))) => if buy.units() > 0 && sell.units() > 0 {
            diff(Ok(raw), Ok(fee))
        } else {
            Ok(decided)
        },
        (Ok(_), Ok(None)) => Ok(decided),
        _ => Err(ArithError),
    }
}

pub fn realized_entry_net(
    cfg: &AppConfig,
    buy_venue: &VenueId,
    sell_venue: &VenueId,
    first_is_buy: bool,
    first: Decimal,
    second: Decimal,
    decided: Decimal,
) -> (r: Calc)
    ensures
        r == entry_net(
            *cfg,
            buy_venue.0@,
            sell_venue.0@,
            first_is_buy,
            first,
            second,
            decided,
        ),
{
    let (buy, sell) = if first_is_buy {
        (first, second)
    } else {
        (second, first)
    };
    let fee = cfg.round_leg_fee(buy_venue, sell_venue)?;
    match raw_spread_pct(buy, sell)? {
        Some(raw) => if buy.is_positive() && sell.is_positive() {
            raw.minus(fee)
        } else {
            Ok(decided)
        },
        None => Ok(decided),
    }
}

/// What a fill adds to what was traded on a venue.
pub open spec fn traded(
    m: Map<Seq<char>, Decimal>,
    venue: Seq<char>,
    qty: Decimal,
    price: Decimal,
) -> Result<Map<Seq<char>, Decimal>, ArithError> {
    if qty.units() <= 0 || price.units() <= 0 {
        Ok(m)
    } else {
        let known = if m.contains_key(venue) {
            m[venue]
        } else {
            lit(0, 0)
        };
        match sum(Ok(known), prod(Ok(qty), Ok(price))) {
            Ok(t) => Ok(m.insert(venue, t)),
            Err(e) => Err(e),
        }
    }
}

pub fn bump_session_volume(
    volume: &mut KeyMap<Decimal>,
    venue: &str,
    qty: Decimal,
    price: Decimal,
) -> (r: Result<(), ArithError>)
    ensures
        match r {
            Ok(_) => traded(old(volume)@, venue@, qty, price) == Ok::<
                Map<Seq<char>, Decimal>,
                ArithError,
            >(final(volume)@),
            Err(_) => traded(old(volume)@, venue@, qty, price) is Err && final(volume)@ == old(
                volume,
            )@,
        },
{
    if !qty.is_positive() || !price.is_positive() {
        return Ok(());
    }
    let known = match volume.get(venue) {
        Some(d) => *d,
        None => Decimal::zero(),
    };
    let t = known.plus(qty.times(price)?)?;
    volume.insert(venue, t);
    Ok(())
}

/// A fill as it is booked.
#[derive(Debug)]
pub struct Fill {
    pub slot: String,
    pub pair_id: String,
    pub buy: VenueId,
    pub sell: VenueId,
    pub qty: Decimal,
    pub is_open: bool,
    /// The step after it.
    pub grid_to: i32,
    pub base_qty: Decimal,
    /// The price between the books; zero where they cannot be read.
    pub mid: Decimal,
    pub entry_net: Decimal,
    pub entry_raw: Decimal,
    pub buy_px: Decimal,
    pub sell_px: Decimal,
}

/// The position that a fill opens.
pub open spec fn fill_position(f: Fill, notional: Decimal, now: Instant) -> PosModel {
    PosModel {
        pair_id: f.pair_id@,
        buy: f.buy.0@,
        sell: f.sell.0@,
        qty: f.qty,
        grid: f.grid_to,
        notional,
        net_pct: f.entry_net,
        raw_pct: f.entry_raw,
        buy_px: f.buy_px,
        sell_px: f.sell_px,
        base_qty: f.base_qty,
        opened_at: now,
    }
}

/// The mean of a slot frozen, unless it is or cannot be told.
pub open spec fn frozen_after(m: WindowModel, slot: Seq<char>) -> WindowModel {
    if m.slots.contains_key(slot) && m.slots[slot].frozen is None && live_of(m, slot) is Ok {
        WindowModel {
            slots: m.slots.insert(
                slot,
                SlotModel { frozen: live_of(m, slot)->Ok_0, ..m.slots[slot] },
            ),
            ..m
        }
    } else {
        m
    }
}

/// The mean of a slot let go.
pub open spec fn unfrozen(m: WindowModel, slot: Seq<char>) -> WindowModel {
    if m.slots.contains_key(slot) {
        WindowModel {
            slots: m.slots.insert(slot, SlotModel { frozen: None, ..m.slots[slot] }),
            ..m
        }
    } else {
        m
    }
}

/// The step of a slot set, where something is held.
pub open spec fn regridded(m: StoreModel, slot: Seq<char>, grid: i32) -> StoreModel {
    if m.positions.contains_key(slot) {
        StoreModel {
            positions: m.positions.insert(slot, PosModel { grid, ..m.positions[slot] }),
            ..m
        }
    } else {
        m
    }
}

/// What a fill makes of the positions.
pub open spec fn booked(m: StoreModel, f: Fill, now: Instant) -> Result<StoreModel, ArithError> {
    if f.is_open {
        match prod(Ok(f.qty), Ok(f.mid)) {
            Ok(notional) => opened(m, f.slot@, fill_position(f, notional, now)),
            Err(e) => Err(e),
        }
    } else {
        match closed(m, f.slot@, f.qty) {
            Ok(n) => Ok(regridded(n, f.slot@, f.grid_to)),
            Err(e) => Err(e),
        }
    }
}

/// The step on which a slot stands.
pub open spec fn step_of(m: StoreModel, slot: Seq<char>) -> int {
    if m.positions.contains_key(slot) {
        m.positions[slot].grid as int
    } else {
        0
    }
}

/// What a fill makes of the windows: leaving step zero freezes the mean, and
/// holding nothing any more lets it go.
pub open spec fn rewindowed(w: WindowModel, before: StoreModel, after: StoreModel, f: Fill) -> WindowModel {
    if f.is_open {
        if step_of(before, f.slot@) == 0 && f.grid_to != 0 {
            frozen_after(w, f.slot@)
        } else {
            w
        }
    } else if !after.positions.contains_key(f.slot@) {
        unfrozen(w, f.slot@)
    } else {
        w
    }
}

/// Books what was really filled, not what was planned: a position that is put
/// too high leaves a residue when it is closed.
pub fn apply_fill(
    positions: &mut PositionStore,
    windows: &mut WindowBook,
    last_flat: &mut KeyMap<Instant>,
    f: &Fill,
    now: Instant,
) -> (r: Result<(), ArithError>)
    ensures
        match booked(old(positions)@, *f, now) {
            Err(_) => r is Err && final(positions)@ == old(positions)@ && final(windows)@ == old(
                windows,
            )@ && final(last_flat)@ == old(last_flat)@,
            Ok(m) => r is Ok && final(positions)@ == m && final(windows)@ == rewindowed(
                old(windows)@,
                old(positions)@,
                m,
                *f,
            ) && final(last_flat)@ == (if !f.is_open && !m.positions.contains_key(f.slot@) {
                old(last_flat)@.insert(f.slot@, now)
            } else {
                old(last_flat)@
            }),
        },
{
    let slot = f.slot.as_str();
    if f.is_open {
        let notional = f.qty.times(f.mid)?;
        let prev: i32 = match positions.get(slot) {
            Some(p) => p.grid,
            None => 0,
        };
        positions.record_open(
            slot,
            f.pair_id.as_str(),
            f.buy.clone(),
            f.sell.clone(),
            f.qty,
            f.grid_to,
            notional,
            f.entry_net,
            f.entry_raw,
            f.base_qty,
            f.buy_px,
            f.sell_px,
            now,
        )?;
        if prev == 0 && f.grid_to != 0 {
            let _ = windows.freeze(slot);
        }
    } else {
        positions.record_close(slot, f.qty)?;
        positions.set_grid(slot, f.grid_to);
        if positions.get(slot).is_none() {
            windows.unfreeze(slot);
            last_flat.insert(slot, now);
        }
    }
    Ok(())
}

// ---------------------------------------------------------------------------
// The end of an order
// ---------------------------------------------------------------------------

/// How an order ended: what was filled, what the second leg lacks and whether an order
/// could not be cancelled; or the text of the error.
pub enum Ended<'a> {
    Filled(&'a Fill, Decimal, bool),
    Failed(&'a str),
}

/// What the end of an order asks for. Once trading has stopped, or where its pair is
/// traded no more, it asks for nothing.
pub open spec fn run_effects(
    enabled: bool,
    pair_known: bool,
    ended: Ended,
    planned: Decimal,
) -> Effects {
    if !enabled || !pair_known {
        no_effects()
    } else {
        match ended {
            Ended::Filled(f, unhedged, orphan) => filled(f.qty, unhedged, orphan),
            Ended::Failed(err) => failed(err@, planned),
        }
    }
}

/// What the engine remembers after an order ended: of a slot whose order was filled or
/// failed, nothing.
pub open spec fn engine_after(m: GridState, slot: Seq<char>, e: Effects, failed: bool) -> GridState {
    if e.fill || failed {
        cleared(m, slot)
    } else {
        m
    }
}

/// No order of the slot is under way.
pub open spec fn freed(m: StoreModel, slot: Seq<char>) -> StoreModel {
    StoreModel { pending: m.pending.remove(slot), ..m }
}

/// The end of an order. Whatever it was, its slot is free again: no order of it is
/// placed, rests or is about to open. A fill is booked; without one no position changes.
/// Once trading has stopped, or where its pair is traded no more, that is all.
pub fn on_run_plan(
    enabled: bool,
    pair_known: bool,
    slot: &str,
    ended: Ended,
    planned: Decimal,
    positions: &mut PositionStore,
    windows: &mut WindowBook,
    last_flat: &mut KeyMap<Instant>,
    engine: &mut WindowGridEngine,
    placing: &mut KeySet,
    pending: &mut KeySet,
    now: Instant,
) -> (r: Result<Effects, ArithError>)
    requires
        ended matches Ended::Filled(f, unhedged, orphan) ==> f.slot@ == slot@,
    ensures
        final(placing)@ == old(placing)@.remove(slot@),
        final(pending)@ == old(pending)@.remove(slot@),
        !final(positions)@.pending.contains(slot@),
        ({
            let e = run_effects(enabled, pair_known, ended, planned);
            let failed = enabled && pair_known && ended is Failed;
            if e.fill {
                match booked(old(positions)@, *ended->Filled_0, now) {
                    Err(_) => r is Err && final(positions)@ == freed(old(positions)@, slot@)
                        && final(windows)@ == old(windows)@ && final(last_flat)@ == old(
                        last_flat,
                    )@ && final(engine)@ == old(engine)@,
                    Ok(m) => {
                        &&& r == Ok::<Effects, ArithError>(e)
                        &&& final(positions)@ == freed(m, slot@)
                        &&& final(windows)@ == rewindowed(
                            old(windows)@,
                            old(positions)@,
                            m,
                            *ended->Filled_0,
                        )
                        &&& final(last_flat)@ == (if !ended->Filled_0.is_open
                            && !m.positions.contains_key(slot@) {
                            old(last_flat)@.insert(slot@, now)
                        } else {
                            old(last_flat)@
                        })
                        &&& final(engine)@ == engine_after(old(engine)@, slot@, e, failed)
                    },
                }
            } else {
                &&& r == Ok::<Effects, ArithError>(e)
                &&& final(positions)@ == freed(old(positions)@, slot@)
                &&& final(positions)@.positions == old(positions)@.positions
                &&& final(windows)@ == old(windows)@
                &&& final(last_flat)@ == old(last_flat)@
                &&& final(engine)@ == engine_after(old(engine)@, slot@, e, failed)
            }
        }),
{
    placing.remove(slot);
    pending.remove(slot);
    if !enabled || !pair_known {
        positions.release_pending(slot);
        return Ok(nothing());
    }
    match ended {
        Ended::Filled(f, unhedged, orphan) => {
            let e = on_filled(f.qty, unhedged, orphan);
            if !e.fill {
                positions.release_pending(slot);
                return Ok(e);
            }
            let done = apply_fill(positions, windows, last_flat, f, now);
            positions.release_pending(slot);
            if done.is_err() {
                return Err(ArithError);
            }
            engine.forget(slot);
            Ok(e)
        },
        Ended::Failed(err) => {
            positions.release_pending(slot);
            engine.forget(slot);
            Ok(on_failed(err, planned))
        },
    }
}

/// A round stopped its slot.
pub open spec fn stops_rounds(err: Seq<char>) -> bool {
    has_part(err, "BURST_HEDGE_FAILED"@) || has_part(err, "BURST_ZERO_FILL"@)
}

/// How far the rounds of a slot are.
pub open spec fn rounds_of(m: Map<Seq<char>, BurstSlot>, slot: Seq<char>) -> BurstSlot {
    if m.contains_key(slot) {
        m[slot]
    } else {
        new_slot()
    }
}

/// The step at which a slot stands, if it was opened with a quantity per step.
pub open spec fn level_of(m: StoreModel, slot: Seq<char>) -> Option<i32> {
    if m.positions.contains_key(slot) && m.positions[slot].base_qty.units() > 0 {
        Some(m.positions[slot].grid)
    } else {
        None
    }
}

/// The end of a round. Whatever it was, its slot is free again. A fill is booked and the
/// slot pauses; a leg that may stand open stops the slot, and its pair waits. Says
/// whether the slot was stopped.
pub fn on_burst_run_plan(
    enabled: bool,
    pair_known: bool,
    slot: &str,
    pair_id: &str,
    ended: Ended,
    pause: Duration,
    rounds: &mut KeyMap<BurstSlot>,
    positions: &mut PositionStore,
    windows: &mut WindowBook,
    last_flat: &mut KeyMap<Instant>,
    engine: &mut WindowGridEngine,
    placing: &mut KeySet,
    pending: &mut KeySet,
    guard: &mut InterventionGuard,
    now: Instant,
) -> (r: Result<bool, ArithError>)
    requires
        ended matches Ended::Filled(f, unhedged, orphan) ==> f.slot@ == slot@,
        ended matches Ended::Filled(f, unhedged, orphan) ==> f.is_open ==> rounds_of(
            old(rounds)@,
            slot@,
        ).open_reps_done < u32::MAX,
    ensures
        final(placing)@ == old(placing)@.remove(slot@),
        final(pending)@ == old(pending)@.remove(slot@),
        !final(positions)@.pending.contains(slot@),
        ({
            let st = rounds_of(old(rounds)@, slot@);
            let fills = enabled && pair_known && ended is Filled && ended->Filled_0.qty.units()
                > 0;
            let stops = enabled && pair_known && (ended matches Ended::Failed(err)
                && stops_rounds(err@));
            if fills {
                let f = *ended->Filled_0;
                match booked(old(positions)@, f, now) {
                    Err(_) => r is Err && final(positions)@ == freed(old(positions)@, slot@)
                        && final(windows)@ == old(windows)@ && final(last_flat)@ == old(
                        last_flat,
                    )@ && final(engine)@ == old(engine)@ && final(rounds)@ == old(rounds)@
                        && final(guard)@ == old(guard)@,
                    Ok(m) => {
                        &&& r == Ok::<bool, ArithError>(false)
                        &&& final(positions)@ == freed(m, slot@)
                        &&& final(windows)@ == rewindowed(old(windows)@, old(positions)@, m, f)
                        &&& final(last_flat)@ == (if !f.is_open && !m.positions.contains_key(
                            slot@,
                        ) {
                            old(last_flat)@.insert(slot@, now)
                        } else {
                            old(last_flat)@
                        })
                        &&& final(engine)@ == cleared(old(engine)@, slot@)
                        &&& final(rounds)@ == old(rounds)@.insert(
                            slot@,
                            round_done(st, f.is_open, now, pause),
                        )
                        &&& final(guard)@ == (GuardModel {
                            streak: old(guard)@.streak.remove(pair_id@),
                            ..old(guard)@
                        })
                    },
                }
            } else {
                &&& r == Ok::<bool, ArithError>(stops)
                &&& final(positions)@ == freed(old(positions)@, slot@)
                &&& final(windows)@ == old(windows)@
                &&& final(last_flat)@ == old(last_flat)@
                &&& final(engine)@ == old(engine)@
                &&& final(rounds)@ == (if stops {
                    old(rounds)@.insert(slot@, round_failed(st, ended->Failed_0@))
                } else {
                    old(rounds)@
                })
                &&& final(guard)@ == (if stops {
                    marked(
                        old(guard)@,
                        pair_id@,
                        Cause::NakedLegUnrecoverable,
                        "burst stopped: "@ + ended->Failed_0@,
                        level_of(old(positions)@, slot@),
                        now,
                    )
                } else {
                    old(guard)@
                })
            }
        }),
{
    placing.remove(slot);
    pending.remove(slot);
    if !enabled || !pair_known {
        positions.release_pending(slot);
        return Ok(false);
    }
    let st = match rounds.get(slot) {
        Some(s) => *s,
        None => BurstSlot::default(),
    };
    match ended {
        Ended::Filled(f, _, _) => {
            if !f.qty.is_positive() {
                positions.release_pending(slot);
                return Ok(false);
            }
            let done = apply_fill(positions, windows, last_flat, f, now);
            positions.release_pending(slot);
            if done.is_err() {
                return Err(ArithError);
            }
            engine.forget(slot);
            guard.clear_streak(pair_id);
            rounds.insert(slot, on_round_filled(st, f.is_open, now, pause));
            Ok(false)
        },
        Ended::Failed(err) => {
            positions.release_pending(slot);
            let (next, stopped) = on_round_failed(st, err);
            if stopped {
                rounds.insert(slot, next);
                let why = joined("burst stopped: ", err);
                let grid = current_grid_level(positions, slot);
                guard.mark(pair_id, Cause::NakedLegUnrecoverable, why.as_str(), grid, now);
            }
            Ok(stopped)
        },
    }
}

/// An exposure of which it is not known whether it is one, put down once for a coin on a
/// venue.
pub open spec fn doubted(
    s: Seq<NakedModel>,
    pair: Seq<char>,
    venue: Seq<char>,
    qty: Decimal,
    counterparty: Seq<char>,
) -> Seq<NakedModel> {
    if qty.units() != 0 && !has_model(s, pair, venue) {
        s.push(
            NakedModel {
                pair_id: pair,
                venue,
                qty,
                counterparty,
                source: NakedSource::SecondLegUnknown,
            },
        )
    } else {
        s
    }
}

/// What stands open after an order ended: a fill clears its coin, and what the order
/// left open is put down behind that.
pub open spec fn exposures_after(
    s: Seq<NakedModel>,
    e: Effects,
    pair: Seq<char>,
    first: Seq<char>,
    second: Seq<char>,
    first_is_buy: bool,
) -> Seq<NakedModel> {
    let a = if e.drop_naked {
        s.filter(|n: NakedModel| n.pair_id != pair)
    } else {
        s
    };
    let b = match e.naked_qty {
        Some(q) => if q.units() > 0 && !has_model(a, pair, first) {
            a.push(
                NakedModel {
                    pair_id: pair,
                    venue: first,
                    qty: signed(first_is_buy, q),
                    counterparty: second,
                    source: NakedSource::BotFailure,
                },
            )
        } else {
            a
        },
        None => a,
    };
    match e.unknown_qty {
        Some(q) => doubted(
            doubted(b, pair, first, signed(first_is_buy, q), second),
            pair,
            second,
            signed(!first_is_buy, q),
            first,
        ),
        None => b,
    }
}

/// Why a pair waits whose one leg was filled alone too often.
pub open spec fn streak_words(n: int) -> Seq<char> {
    number_text(n) + " consecutive single-leg fills (all recovered, but link looks broken)"@
}

/// Why a pair waits whose order failed.
pub open spec fn wait_words(cause: Cause, venue: Seq<char>, err: Seq<char>) -> Seq<char> {
    if cause == Cause::SecondLegUnknown {
        "dual-market fill unverifiable; check both venues before resuming"@
    } else {
        "naked leg on "@ + venue + " ("@ + err + ")"@
    }
}

/// Why a pair waits of which an order could not be cancelled; the order is named where
/// the others were filled.
pub open spec fn orphan_words(order: Option<Seq<char>>, venue: Seq<char>) -> Seq<char> {
    match order {
        Some(id) => "hedge ok but order "@ + id + " on "@ + venue + " could not be canceled"@,
        None => "uncancelable resting order on "@ + venue,
    }
}

/// One more fill of one leg alone.
pub open spec fn one_more(n: u32) -> u32 {
    if n < u32::MAX {
        (n + 1) as u32
    } else {
        n
    }
}

/// Which pairs wait after an order ended, and how often in a row one leg was filled
/// alone.
pub open spec fn guard_after(
    m: GuardModel,
    e: Effects,
    pair: Seq<char>,
    venue: Seq<char>,
    err: Seq<char>,
    order: Option<Seq<char>>,
    grid: Option<i32>,
    now: Instant,
) -> GuardModel {
    let a = if e.clear_streak {
        GuardModel { streak: m.streak.remove(pair), ..m }
    } else {
        m
    };
    let n = one_more(streak_of(a, pair));
    let b = if e.note_single_leg {
        GuardModel { streak: a.streak.insert(pair, n), ..a }
    } else {
        a
    };
    let c = if e.note_single_leg && n >= SINGLE_LEG_STREAK_LIMIT {
        marked(b, pair, Cause::SingleLegStreak, streak_words(n as int), grid, now)
    } else {
        b
    };
    let d = match e.wait {
        Some(cause) => marked(c, pair, cause, wait_words(cause, venue, err), grid, now),
        None => c,
    };
    if e.orphan {
        marked(d, pair, Cause::OrphanOrder, orphan_words(order, venue), grid, now)
    } else {
        d
    }
}

/// Puts down what an order left open, and the pairs that have to wait for it. `grid` is
/// the step of the slot after the order was booked, `order` the one that could not be
/// cancelled beside a fill.
pub fn take_effects(
    e: Effects,
    pair_id: &str,
    first: &str,
    second: &str,
    first_is_buy: bool,
    err: &str,
    order: Option<&str>,
    grid: Option<i32>,
    naked: &mut Vec<NakedExposure>,
    guard: &mut InterventionGuard,
    now: Instant,
)
    ensures
        naked_models(final(naked)@) == exposures_after(
            naked_models(old(naked)@),
            e,
            pair_id@,
            first@,
            second@,
            first_is_buy,
        ),
        final(guard)@ == guard_after(
            old(guard)@,
            e,
            pair_id@,
            first@,
            err@,
            match order {
                Some(id) => Some(id@),
                None => None,
            },
            grid,
            now,
        ),
{
    put_down(e, pair_id, first, second, first_is_buy, naked);
    if e.clear_streak {
        guard.clear_streak(pair_id);
    }
    if e.note_single_leg {
        let n = guard.note_single_leg(pair_id);
        if streak_is_long(n) {
            let why = joined(
                int_text(n as i64).as_str(),
                " consecutive single-leg fills (all recovered, but link looks broken)",
            );
            guard.mark(pair_id, Cause::SingleLegStreak, why.as_str(), grid, now);
        }
    }
    if let Some(cause) = e.wait {
        if cause == Cause::SecondLegUnknown {
            guard.mark(
                pair_id,
                cause,
                "dual-market fill unverifiable; check both venues before resuming",
                grid,
                now,
            );
        } else {
            let mut why = joined("naked leg on ", first);
            why.append(" (");
            why.append(err);
            why.append(")");
            guard.mark(pair_id, cause, why.as_str(), grid, now);
        }
    }
    if e.orphan {
        let why = match order {
            Some(id) => {
                let mut why = joined("hedge ok but order ", id);
                why.append(" on ");
                why.append(first);
                why.append(" could not be canceled");
                why
            },
            None => joined("uncancelable resting order on ", first),
        };
        guard.mark(pair_id, Cause::OrphanOrder, why.as_str(), grid, now);
    }
}

fn put_down(
    e: Effects,
    pair_id: &str,
    first: &str,
    second: &str,
    first_is_buy: bool,
    naked: &mut Vec<NakedExposure>,
)
    ensures
        naked_models(final(naked)@) == exposures_after(
            naked_models(old(naked)@),
            e,
            pair_id@,
            first@,
            second@,
            first_is_buy,
        ),
{
    if e.drop_naked {
        let keep = Keep::NotPair(pair_id.to_owned());
        proof {
            lemma_naked_models(naked@, keep, pair_id@, first@);
            let f = |n: NakedModel| stays(keep, n);
            let g = |n: NakedModel| n.pair_id != pair_id@;
            assert(f =~= g);
        }
        retain(naked, &keep);
    }
    if let Some(q) = e.naked_qty {
        proof {
            lemma_naked_models(naked@, Keep::BotFailures, pair_id@, first@);
        }
        record_naked_from_failed_hedge(naked, pair_id, first, second, first_is_buy, q);
    }
    if let Some(q) = e.unknown_qty {
        let other = q.neg();
        let (a, b) = if first_is_buy {
            (q, other)
        } else {
            (other, q)
        };
        proof {
            lemma_naked_models(naked@, Keep::BotFailures, pair_id@, first@);
        }
        record_unknown_naked(naked, pair_id, first, a, second);
        proof {
            lemma_naked_models(naked@, Keep::BotFailures, pair_id@, second@);
        }
        record_unknown_naked(naked, pair_id, second, b, first);
    }
}

// ---------------------------------------------------------------------------
// Laws
// ---------------------------------------------------------------------------

/// A leg of which it is not known whether it was filled is never put down as one
/// that is hedged on its own, and its pair waits.
pub proof fn law_unknown_leg_waits(err: Seq<char>, planned: Decimal)
    requires
        failure(err) == FailKind::SecondLegUnknown,
    ensures
        failed(err, planned).naked_qty is None,
        failed(err, planned).unknown_qty is Some,
        failed(err, planned).wait == Some(Cause::SecondLegUnknown),
{
}

/// Only an order that was filled on both sides, of a pair that is traded while trading is
/// on, changes a position.
pub proof fn law_only_fills_are_booked(
    enabled: bool,
    pair_known: bool,
    ended: Ended,
    planned: Decimal,
)
    ensures
        run_effects(enabled, pair_known, ended, planned).fill <==> {
            &&& enabled
            &&& pair_known
            &&& ended matches Ended::Filled(f, unhedged, orphan) && f.qty.units() > 0
        },
        !enabled || !pair_known ==> run_effects(enabled, pair_known, ended, planned)
            == no_effects(),
{
}

/// What opening earned goes by the fills: the spread from the price that was bought at to the
/// price that was sold at, whichever leg went first; after fees it is less by what both venues
/// take. Without both prices it is what the decision went by.
pub proof fn law_entry_goes_by_the_prices_of_the_fills(
    cfg: AppConfig,
    buy_venue: Seq<char>,
    sell_venue: Seq<char>,
    first_is_buy: bool,
    first: Decimal,
    second: Decimal,
    decided: Decimal,
    bought: Decimal,
    sold: Decimal,
)
    requires
        first_is_buy ==> bought == first && sold == second,
        !first_is_buy ==> bought == second && sold == first,
        bought.units() > 0,
        sold.units() > 0,
        spreads_exactly(bought, sold),
        adds_exactly(Ok(cfg.taker(buy_venue)), Ok(cfg.taker(sell_venue))),
        subtracts_exactly(
            Ok(raw_spread(bought, sold)->Ok_0->0),
            sum(Ok(cfg.taker(buy_venue)), Ok(cfg.taker(sell_venue))),
        ),
    ensures
        ({
            let raw = entry_raw(first_is_buy, first, second, decided);
            let net = entry_net(
                cfg,
                buy_venue,
                sell_venue,
                first_is_buy,
                first,
                second,
                decided,
            );
            &&& raw is Ok && net is Ok
            &&& value(raw) * bought.units() == 100 * (sold.units() - bought.units()) * whole()
            &&& value(net) == value(raw) - cfg.taker(buy_venue).units() - cfg.taker(
                sell_venue,
            ).units()
        }),
{
    law_spread_is_gain_in_percent_of_the_cost(bought, sold);
}

/// What is traded on a venue grows by quantity times price, and on no other venue; a fill
/// without a quantity or a price adds nothing.
pub proof fn law_volume_grows_by_quantity_times_price(
    m: Map<Seq<char>, Decimal>,
    venue: Seq<char>,
    other: Seq<char>,
    qty: Decimal,
    price: Decimal,
)
    requires
        other != venue,
        qty.units() > 0,
        price.units() > 0,
        multiplies_exactly(Ok(qty), Ok(price)),
        adds_exactly(
            Ok(
                if m.contains_key(venue) {
                    m[venue]
                } else {
                    lit(0, 0)
                },
            ),
            prod(Ok(qty), Ok(price)),
        ),
    ensures
        traded(m, venue, qty, price) matches Ok(n) && {
            let before = if m.contains_key(venue) {
                m[venue].units()
            } else {
                0
            };
            &&& n.contains_key(venue)
            &&& (n[venue].units() - before) * whole() == qty.units() * price.units()
            &&& n.contains_key(other) <==> m.contains_key(other)
            &&& m.contains_key(other) ==> n[other] == m[other]
        },
{
    broadcast use lemma_lit, lemma_sign;

}

/// A fill that opens is booked at its value at the price between the books, with its own prices
/// and earnings; one that closes leaves what was held less by it, on the step it leads to.
pub proof fn law_a_fill_is_booked_at_its_value(m: StoreModel, f: Fill, now: Instant)
    requires
        f.qty.units() > 0,
    ensures
        f.is_open && !is_open(m, f.slot@) && multiplies_exactly(Ok(f.qty), Ok(f.mid)) ==> (booked(
            m,
            f,
            now,
        ) matches Ok(n) && n.positions.contains_key(f.slot@) && {
            let p = n.positions[f.slot@];
            &&& p.qty == f.qty && p.buy == f.buy.0@ && p.sell == f.sell.0@
            &&& p.notional.units() * whole() == f.qty.units() * f.mid.units()
            &&& p.net_pct == f.entry_net && p.raw_pct == f.entry_raw
            &&& p.buy_px == f.buy_px && p.sell_px == f.sell_px
            &&& p.grid == f.grid_to && p.base_qty == f.base_qty && p.opened_at == now
        }),
        !f.is_open && is_open(m, f.slot@) && subtracts_exactly(
            Ok(m.positions[f.slot@].qty),
            Ok(f.qty),
        ) ==> (booked(m, f, now) matches Ok(n) ==> {
            let before = m.positions[f.slot@].qty.units();
            &&& f.qty.units() >= before ==> !n.positions.contains_key(f.slot@)
            &&& f.qty.units() < before ==> n.positions.contains_key(f.slot@)
                && n.positions[f.slot@].qty.units() == before - f.qty.units()
                && n.positions[f.slot@].grid == f.grid_to
        }),
{
    broadcast use lemma_lit, lemma_sign;

}

/// A success with a quantity is booked and ends the count of single legs unless an order may
/// yet be filled; what the second leg lacks stands open. A success without a quantity is none.
pub proof fn law_what_the_second_leg_lacks_stands_open(
    hedged: Decimal,
    unhedged: Decimal,
    orphan: bool,
)
    ensures
        filled(hedged, unhedged, orphan).fill <==> hedged.units() > 0,
        hedged.units() > 0 ==> (filled(hedged, unhedged, orphan).naked_qty is Some
            <==> unhedged.units() > 0),
        filled(hedged, unhedged, orphan).naked_qty matches Some(q) ==> q == unhedged,
        hedged.units() > 0 ==> (filled(hedged, unhedged, orphan).clear_streak <==> !orphan),
        hedged.units() <= 0 ==> filled(hedged, unhedged, orphan) == no_effects(),
{
}

} // verus!
