//! Bringing memory in line with what the venues hold.

use crate::app::balance::{all_answered, VenueAccountCache, VenueAccountSnapshot};
use crate::app::outcome::frozen_after;
use crate::app::positions::{
    is_open, opened, overstated, resized, PosModel, PositionStore, StoreModel,
};
use crate::app::reconcile::{
    audit_position_qty, audited, exchange_opposite_hedge, hedge_grid_step,
    law_steps_are_the_nearest_number, leg_at, opposed, steps_in, venue_leg,
};
use crate::app::sizing::{mid_between, mid_from_bbo};
use crate::app::window_spread::{WindowBook, WindowModel};
use crate::clock::{elapsed, secs, Duration, Instant};
use crate::config::AppConfig;
use crate::decimal::{
    dabs, divides_exactly, dmax, dmin, dround, halves_exactly, lemma_half, lemma_lit, lemma_sign,
    lemma_size, lit, magnitude, multiplies_exactly, prod, quot, sum, whole, ArithError, Calc,
    Decimal,
};
use crate::domain::book::{read_book, BookMap};
use crate::domain::symbol::{Pair, VenueId};
use crate::keymap::{KeyMap, KeySet};
use crate::text::same;
use vstd::prelude::*;

verus! {

/// For so long after a close the venues' answers may still show what was closed.
pub const QUIET_SECS: u64 = 8;

/// Between two reports of the same difference.
pub const MISMATCH_SECS: u64 = 30;

/// A slot was closed a moment ago.
pub open spec fn just_closed(m: Map<Seq<char>, Instant>, slot: Seq<char>, now: Instant) -> bool {
    m.contains_key(slot) && elapsed(now, m[slot]) < secs(QUIET_SECS as int)
}

pub fn recently_flattened(last_flat: &KeyMap<Instant>, slot: &str, now: Instant) -> (r: bool)
    ensures
        r == just_closed(last_flat@, slot@, now),
{
    match last_flat.get(slot) {
        Some(t) => now.since(*t).nanos < Duration::from_secs(QUIET_SECS).nanos,
        None => false,
    }
}

/// A difference was reported a moment ago.
pub open spec fn just_reported(m: Map<Seq<char>, Instant>, slot: Seq<char>, now: Instant) -> bool {
    m.contains_key(slot) && elapsed(now, m[slot]) < secs(MISMATCH_SECS as int)
}

/// Notes a report and says whether it is due.
pub fn should_log_mismatch(reported: &mut KeyMap<Instant>, slot: &str, now: Instant) -> (r: bool)
    ensures
        r == !just_reported(old(reported)@, slot@, now),
        final(reported)@ == (if r {
            old(reported)@.insert(slot@, now)
        } else {
            old(reported)@
        }),
{
    let recent = match reported.get(slot) {
        Some(t) => now.since(*t).nanos < Duration::from_secs(MISMATCH_SECS).nanos,
        None => false,
    };
    if recent {
        return false;
    }
    reported.insert(slot, now);
    true
}

/// Both legs hold something on the same side.
pub open spec fn same_side(venues: Seq<VenueAccountSnapshot>, pair: Pair) -> Result<
    bool,
    ArithError,
> {
    match (leg_at(venues, pair.legs@[0]), leg_at(venues, pair.legs@[1])) {
        (Ok(a), Ok(b)) => Ok(
            a.0.units() != 0 && b.0.units() != 0 && (a.0.units() >= 0) == (b.0.units() >= 0),
        ),
        _ => Err(ArithError),
    }
}

pub fn same_sign_open_positions(pair: &Pair, accounts: &VenueAccountCache) -> (r: Result<
    bool,
    ArithError,
>)
    ensures
        r == same_side(accounts.venues@, *pair),
{
    let a = venue_leg(accounts, &pair.legs[0])?.0;
    let b = venue_leg(accounts, &pair.legs[1])?.0;
    Ok(!a.is_zero() && !b.is_zero() && a.is_sign_positive() == b.is_sign_positive())
}

// ---------------------------------------------------------------------------
// Memory that holds too much
// ---------------------------------------------------------------------------

/// What holding a slot against the venues gives.
#[derive(Clone, Copy, Debug)]
pub enum AuditStep {
    /// Nothing is in memory, or an order is under way.
    Skip,
    /// Both venues hold the same side: a person must look.
    SameSide,
    Agrees,
    /// What memory and the venues hold.
    Differs(Decimal, Decimal),
}

/// What the venues say of a quantity in memory.
pub open spec fn audit_of(venues: Seq<VenueAccountSnapshot>, pair: Pair, memory: Decimal) -> Result<
    Option<(Decimal, Decimal)>,
    ArithError,
> {
    if !all_answered(venues) || memory.units() <= 0 {
        Ok(None)
    } else {
        match (leg_at(venues, pair.legs@[0]), leg_at(venues, pair.legs@[1])) {
            (Ok(a), Ok(b)) => audited(
                a.0,
                b.0,
                dmax(pair.legs@[0].min_qty, pair.legs@[1].min_qty),
                memory,
            ),
            _ => Err(ArithError),
        }
    }
}

pub open spec fn audit_step(
    m: StoreModel,
    venues: Seq<VenueAccountSnapshot>,
    placing: Set<Seq<char>>,
    pair: Pair,
) -> Result<AuditStep, ArithError> {
    let slot = pair.slot();
    if placing.contains(slot) || m.pending.contains(slot) || !m.positions.contains_key(slot) {
        Ok(AuditStep::Skip)
    } else {
        match same_side(venues, pair) {
            Err(e) => Err(e),
            Ok(true) => Ok(AuditStep::SameSide),
            Ok(false) => match audit_of(venues, pair, m.positions[slot].qty) {
                Err(e) => Err(e),
                Ok(None) => Ok(AuditStep::Agrees),
                Ok(Some((mem, exch))) => Ok(AuditStep::Differs(mem, exch)),
            },
        }
    }
}

/// Holds a slot against the venues. One leg alone, or an order that is under way,
/// changes nothing.
pub fn audit_slot(
    positions: &PositionStore,
    accounts: &VenueAccountCache,
    placing: &KeySet,
    pair: &Pair,
) -> (r: Result<AuditStep, ArithError>)
    ensures
        r == audit_step(positions@, accounts.venues@, placing@.dom(), *pair),
{
    let slot = pair.slot_key();
    if placing.contains(slot.as_str()) || positions.is_pending(slot.as_str()) {
        return Ok(AuditStep::Skip);
    }
    let qty = match positions.get(slot.as_str()) {
        None => {
            return Ok(AuditStep::Skip);
        },
        Some(p) => p.qty,
    };
    if same_sign_open_positions(pair, accounts)? {
        return Ok(AuditStep::SameSide);
    }
    match audit_position_qty(pair, accounts, qty)? {
        None => Ok(AuditStep::Agrees),
        Some((mem, exch)) => Ok(AuditStep::Differs(mem, exch)),
    }
}

/// What an audit gives for all pairs, in their order.
pub open spec fn audit_steps(
    m: StoreModel,
    venues: Seq<VenueAccountSnapshot>,
    placing: Set<Seq<char>>,
    pairs: Seq<Pair>,
) -> Result<Seq<AuditStep>, ArithError>
    decreases pairs.len(),
{
    if pairs.len() == 0 {
        Ok(Seq::empty())
    } else {
        match (
            audit_steps(m, venues, placing, pairs.drop_last()),
            audit_step(m, venues, placing, pairs.last()),
        ) {
            (Ok(init), Ok(x)) => Ok(init.push(x)),
            _ => Err(ArithError),
        }
    }
}

proof fn lemma_steps_err(
    m: StoreModel,
    venues: Seq<VenueAccountSnapshot>,
    placing: Set<Seq<char>>,
    pairs: Seq<Pair>,
    n: int,
)
    requires
        0 <= n <= pairs.len(),
        audit_steps(m, venues, placing, pairs.take(n)) is Err,
    ensures
        audit_steps(m, venues, placing, pairs) is Err,
    decreases pairs.len() - n,
{
    if n == pairs.len() {
        assert(pairs.take(n) =~= pairs);
    } else {
        assert(pairs.take(n + 1).drop_last() =~= pairs.take(n));
        lemma_steps_err(m, venues, placing, pairs, n + 1);
    }
}

/// What is known while differences are settled.
pub struct AuditModel {
    pub store: StoreModel,
    pub last_flat: Map<Seq<char>, Instant>,
    pub reported: Map<Seq<char>, Instant>,
}

/// A difference settled: memory that holds too much is brought down. Memory that
/// holds less is left, and reported now and then.
pub open spec fn settled(
    m: AuditModel,
    slot: Seq<char>,
    exch: Decimal,
    now: Instant,
) -> Result<AuditModel, ArithError> {
    if overstated(m.store, slot, exch) {
        match resized(m.store.positions, slot, dmax(exch, lit(0, 0))) {
            Err(e) => Err(e),
            Ok(positions) => Ok(
                AuditModel {
                    store: StoreModel { positions, ..m.store },
                    last_flat: if exch.units() == 0 {
                        m.last_flat.insert(slot, now)
                    } else {
                        m.last_flat
                    },
                    reported: m.reported.remove(slot),
                },
            ),
        }
    } else {
        Ok(
            AuditModel {
                reported: if just_reported(m.reported, slot, now) {
                    m.reported
                } else {
                    m.reported.insert(slot, now)
                },
                ..m
            },
        )
    }
}

/// The differences settled one after the other.
pub open spec fn all_settled(
    m: AuditModel,
    pairs: Seq<Pair>,
    steps: Seq<AuditStep>,
    now: Instant,
) -> Result<AuditModel, ArithError>
    decreases pairs.len(),
{
    if pairs.len() == 0 {
        Ok(m)
    } else {
        match all_settled(m, pairs.drop_last(), steps.drop_last(), now) {
            Err(e) => Err(e),
            Ok(n) => match steps.last() {
                AuditStep::Differs(mem, exch) => settled(n, pairs.last().slot(), exch, now),
                _ => Ok(n),
            },
        }
    }
}

fn settle(
    positions: &mut PositionStore,
    last_flat: &mut KeyMap<Instant>,
    reported: &mut KeyMap<Instant>,
    slot: &str,
    exch: Decimal,
    now: Instant,
) -> (r: Result<(), ArithError>)
    ensures
        ({
            let m = AuditModel {
                store: old(positions)@,
                last_flat: old(last_flat)@,
                reported: old(reported)@,
            };
            let n = AuditModel {
                store: final(positions)@,
                last_flat: final(last_flat)@,
                reported: final(reported)@,
            };
            match r {
                Ok(_) => settled(m, slot@, exch, now) == Ok::<AuditModel, ArithError>(n),
                Err(_) => settled(m, slot@, exch, now) is Err && n == m,
            }
        }),
{
    match positions.reconcile_qty(slot, exch)? {
        Some((_, after)) => {
            reported.remove(slot);
            if after.is_zero() {
                last_flat.insert(slot, now);
            }
        },
        None => {
            should_log_mismatch(reported, slot, now);
        },
    }
    Ok(())
}

/// Holds all of memory against the venues and settles the differences. What is
/// found is told pair by pair.
pub fn audit_memory_positions(
    positions: &mut PositionStore,
    last_flat: &mut KeyMap<Instant>,
    reported: &mut KeyMap<Instant>,
    accounts: &VenueAccountCache,
    placing: &KeySet,
    pairs: &Vec<Pair>,
    now: Instant,
) -> (r: Result<Vec<AuditStep>, ArithError>)
    ensures
        ({
            let m = AuditModel {
                store: old(positions)@,
                last_flat: old(last_flat)@,
                reported: old(reported)@,
            };
            let n = AuditModel {
                store: final(positions)@,
                last_flat: final(last_flat)@,
                reported: final(reported)@,
            };
            match audit_steps(old(positions)@, accounts.venues@, placing@.dom(), pairs@) {
                Err(_) => r is Err && n == m,
                Ok(steps) => match all_settled(m, pairs@, steps, now) {
                    Ok(done) => r matches Ok(v) && v@ == steps && n == done,
                    Err(_) => r is Err,
                },
            }
        }),
{
    let ghost start = positions@;
    let ghost m = AuditModel {
        store: positions@,
        last_flat: last_flat@,
        reported: reported@,
    };
    let mut steps: Vec<AuditStep> = Vec::new();
    let mut i: usize = 0;
    proof {
        assert(pairs@.take(0) =~= Seq::empty());
    }
    while i < pairs.len()
        invariant
            positions@ == start,
            last_flat@ == m.last_flat,
            reported@ == m.reported,
            m.store == start,
            i <= pairs@.len(),
            steps@.len() == i,
            audit_steps(start, accounts.venues@, placing@.dom(), pairs@.take(i as int)) == Ok::<
                Seq<AuditStep>,
                ArithError,
            >(steps@),
        decreases pairs.len() - i,
    {
        proof {
            assert(pairs@.take(i + 1).drop_last() =~= pairs@.take(i as int));
        }
        match audit_slot(positions, accounts, placing, &pairs[i]) {
            Ok(x) => {
                steps.push(x);
            },
            Err(e) => {
                proof {
                    lemma_steps_err(start, accounts.venues@, placing@.dom(), pairs@, i + 1);
                }
                return Err(e);
            },
        }
        i = i + 1;
    }
    proof {
        assert(pairs@.take(i as int) =~= pairs@);
        assert(steps@.take(0) =~= Seq::empty());
    }
    let mut j: usize = 0;
    while j < pairs.len()
        invariant
            j <= pairs@.len(),
            steps@.len() == pairs@.len(),
            m == (AuditModel {
                store: old(positions)@,
                last_flat: old(last_flat)@,
                reported: old(reported)@,
            }),
            audit_steps(m.store, accounts.venues@, placing@.dom(), pairs@) == Ok::<
                Seq<AuditStep>,
                ArithError,
            >(steps@),
            all_settled(m, pairs@.take(j as int), steps@.take(j as int), now) == Ok::<
                AuditModel,
                ArithError,
            >(
                (AuditModel {
                    store: positions@,
                    last_flat: last_flat@,
                    reported: reported@,
                }),
            ),
        decreases pairs.len() - j,
    {
        proof {
            assert(pairs@.take(j + 1).drop_last() =~= pairs@.take(j as int));
            assert(steps@.take(j + 1).drop_last() =~= steps@.take(j as int));
        }
        if let AuditStep::Differs(_, exch) = steps[j] {
            let slot = pairs[j].slot_key();
            match settle(positions, last_flat, reported, slot.as_str(), exch, now) {
                Ok(_) => {},
                Err(e) => {
                    proof {
                        lemma_settled_err(m, pairs@, steps@, now, j + 1);
                    }
                    return Err(e);
                },
            }
        }
        j = j + 1;
    }
    proof {
        assert(pairs@.take(j as int) =~= pairs@);
        assert(steps@.take(j as int) =~= steps@);
    }
    Ok(steps)
}

proof fn lemma_settled_err(
    m: AuditModel,
    pairs: Seq<Pair>,
    steps: Seq<AuditStep>,
    now: Instant,
    n: int,
)
    requires
        0 <= n <= pairs.len(),
        steps.len() == pairs.len(),
        all_settled(m, pairs.take(n), steps.take(n), now) is Err,
    ensures
        all_settled(m, pairs, steps, now) is Err,
    decreases pairs.len() - n,
{
    if n == pairs.len() {
        assert(pairs.take(n) =~= pairs);
        assert(steps.take(n) =~= steps);
    } else {
        assert(pairs.take(n + 1).drop_last() =~= pairs.take(n));
        assert(steps.take(n + 1).drop_last() =~= steps.take(n));
        lemma_settled_err(m, pairs, steps, now, n + 1);
    }
}

// ---------------------------------------------------------------------------
// Memory that lost something
// ---------------------------------------------------------------------------

/// The overlap of two legs, its texts as sequences.
pub struct Overlap {
    pub qty: Decimal,
    pub buy: Seq<char>,
    pub sell: Seq<char>,
    pub buy_px: Decimal,
    pub sell_px: Decimal,
}

/// What two venues hold on opposite sides of a pair.
pub open spec fn overlap_of(venues: Seq<VenueAccountSnapshot>, pair: Pair) -> Result<
    Option<Overlap>,
    ArithError,
> {
    if !all_answered(venues) {
        Ok(None)
    } else {
        match (leg_at(venues, pair.legs@[0]), leg_at(venues, pair.legs@[1])) {
            (Ok(a), Ok(b)) => if opposed(a.0, b.0) {
                let qty = dmin(dabs(a.0), dabs(b.0));
                Ok(
                    Some(
                        if a.0.units() > 0 {
                            Overlap {
                                qty,
                                buy: pair.legs@[0].venue.0@,
                                sell: pair.legs@[1].venue.0@,
                                buy_px: a.1,
                                sell_px: b.1,
                            }
                        } else {
                            Overlap {
                                qty,
                                buy: pair.legs@[1].venue.0@,
                                sell: pair.legs@[0].venue.0@,
                                buy_px: b.1,
                                sell_px: a.1,
                            }
                        },
                    ),
                )
            } else {
                Ok(None)
            },
            _ => Err(ArithError),
        }
    }
}

/// The price between two books, else between two entry prices, else zero.
pub open spec fn restore_mid(books: BookMap, pair: Pair, h: Overlap) -> Calc {
    let b0 = books.at(pair.legs@[0].venue.0@, pair.pair_id@);
    let b1 = books.at(pair.legs@[1].venue.0@, pair.pair_id@);
    let mid = if b0 is Some && b1 is Some {
        mid_between(b0->0, b1->0)
    } else {
        Ok(None)
    };
    match mid {
        Err(e) => Err(e),
        Ok(Some(m)) => Ok(m),
        Ok(None) => if h.buy_px.units() > 0 && h.sell_px.units() > 0 {
            quot(sum(Ok(h.buy_px), Ok(h.sell_px)), Ok(lit(2, 0)))
        } else {
            Ok(lit(0, 0))
        },
    }
}

/// The signed step of an overlap.
pub open spec fn restore_step(h: Overlap, base_qty: Decimal, max_step: int, plus: bool) -> Result<
    int,
    ArithError,
> {
    let steps = if base_qty.units() > 0 {
        match quot(Ok(h.qty), Ok(base_qty)) {
            Ok(q) => Ok(dround(q, 0)),
            Err(e) => Err(e),
        }
    } else {
        Ok(lit(1, 0))
    };
    match steps {
        Err(e) => Err(e),
        Ok(s) => Ok(
            if plus {
                steps_in(s, max_step)
            } else {
                -steps_in(s, max_step)
            },
        ),
    }
}

/// The position that an overlap gives back; none for a coin without a setting.
pub open spec fn restored_position(
    cfg: AppConfig,
    books: BookMap,
    pair: Pair,
    h: Overlap,
    now: Instant,
) -> Result<Option<PosModel>, ArithError> {
    let min_qty = dmax(pair.legs@[0].min_qty, pair.legs@[1].min_qty);
    match cfg.grid_of(
        pair.legs@[0].base@,
        pair.legs@[0].venue.0@,
        pair.legs@[1].venue.0@,
        min_qty,
    ) {
        Err(e) => Err(e),
        Ok(None) => Ok(None),
        Ok(Some(g)) => match (
            restore_step(h, g.base_qty, g.max_segments as i32 as int, h.buy == pair.legs@[1].venue.0@),
            restore_mid(books, pair, h),
        ) {
            (Ok(k), Ok(mid)) => match prod(Ok(h.qty), Ok(mid)) {
                Ok(notional) => Ok(
                    Some(
                        PosModel {
                            pair_id: pair.pair_id@,
                            buy: h.buy,
                            sell: h.sell,
                            qty: h.qty,
                            grid: k as i32,
                            notional,
                            net_pct: lit(0, 0),
                            raw_pct: lit(0, 0),
                            buy_px: h.buy_px,
                            sell_px: h.sell_px,
                            base_qty: g.base_qty,
                            opened_at: now,
                        },
                    ),
                ),
                Err(e) => Err(e),
            },
            _ => Err(ArithError),
        },
    }
}

/// A slot whose memory may be given back: nothing is held or under way, it was
/// not closed a moment ago, and the overlap can be traded.
pub open spec fn may_restore(
    m: StoreModel,
    venues: Seq<VenueAccountSnapshot>,
    placing: Set<Seq<char>>,
    last_flat: Map<Seq<char>, Instant>,
    pair: Pair,
    now: Instant,
) -> Result<Option<Overlap>, ArithError> {
    let slot = pair.slot();
    let min_qty = dmax(pair.legs@[0].min_qty, pair.legs@[1].min_qty);
    if placing.contains(slot) || m.pending.contains(slot) || just_closed(last_flat, slot, now)
        || is_open(m, slot) {
        Ok(None)
    } else {
        match overlap_of(venues, pair) {
            Err(e) => Err(e),
            Ok(None) => Ok(None),
            Ok(Some(h)) => if min_qty.units() > 0 && h.qty.units() < min_qty.units() {
                Ok(None)
            } else {
                Ok(Some(h))
            },
        }
    }
}

/// What giving one slot's memory back makes of positions and windows.
pub open spec fn restored(
    m: StoreModel,
    w: WindowModel,
    cfg: AppConfig,
    books: BookMap,
    venues: Seq<VenueAccountSnapshot>,
    placing: Set<Seq<char>>,
    last_flat: Map<Seq<char>, Instant>,
    pair: Pair,
    now: Instant,
) -> Result<Option<(StoreModel, WindowModel)>, ArithError> {
    match may_restore(m, venues, placing, last_flat, pair, now) {
        Err(e) => Err(e),
        Ok(None) => Ok(None),
        Ok(Some(h)) => match restored_position(cfg, books, pair, h, now) {
            Err(e) => Err(e),
            Ok(None) => Ok(None),
            Ok(Some(p)) => match opened(m, pair.slot(), p) {
                Err(e) => Err(e),
                Ok(n) => Ok(Some((n, frozen_after(w, pair.slot())))),
            },
        },
    }
}

/// Gives memory back to a slot that lost it while the venues still hold both
/// legs: else it would be taken for empty and traded on. Says whether it did.
pub fn restore_slot(
    positions: &mut PositionStore,
    windows: &mut WindowBook,
    cfg: &AppConfig,
    books: &BookMap,
    accounts: &VenueAccountCache,
    placing: &KeySet,
    last_flat: &KeyMap<Instant>,
    pair: &Pair,
    now: Instant,
) -> (r: Result<bool, ArithError>)
    ensures
        match restored(
            old(positions)@,
            old(windows)@,
            *cfg,
            *books,
            accounts.venues@,
            placing@.dom(),
            last_flat@,
            *pair,
            now,
        ) {
            Err(_) => r is Err && final(positions)@ == old(positions)@ && final(windows)@ == old(
                windows,
            )@,
            Ok(None) => r == Ok::<bool, ArithError>(false) && final(positions)@ == old(positions)@
                && final(windows)@ == old(windows)@,
            Ok(Some((m, w))) => r == Ok::<bool, ArithError>(true) && final(positions)@ == m
                && final(windows)@ == w,
        },
{
    let slot = pair.slot_key();
    if placing.contains(slot.as_str()) || positions.is_pending(slot.as_str())
        || recently_flattened(last_flat, slot.as_str(), now) {
        return Ok(false);
    }
    let held = match positions.get(slot.as_str()) {
        Some(p) => p.qty.is_positive(),
        None => false,
    };
    if held {
        return Ok(false);
    }
    let h = match exchange_opposite_hedge(pair, accounts)? {
        None => {
            return Ok(false);
        },
        Some(h) => h,
    };
    let min_qty = pair.min_qty();
    if min_qty.is_positive() && h.qty < min_qty {
        return Ok(false);
    }
    let params = match cfg.grid_for(
        pair.legs[0].base.as_str(),
        pair.legs[0].venue.as_str(),
        pair.legs[1].venue.as_str(),
        min_qty,
    )? {
        None => {
            return Ok(false);
        },
        Some(p) => p,
    };
    let plus = same(h.buy.as_str(), pair.legs[1].venue.as_str());
    let k = hedge_grid_step(h.qty, params.base_qty, params.max_segments as i32, plus)?;
    let left = read_book(books, pair.legs[0].venue.as_str(), pair.pair_id.as_str());
    let right = read_book(books, pair.legs[1].venue.as_str(), pair.pair_id.as_str());
    let between = match (left, right) {
        (Some(a), Some(b)) => mid_from_bbo(a, b)?,
        _ => None,
    };
    let mid = match between {
        Some(m) => m,
        None => if h.buy_px.is_positive() && h.sell_px.is_positive() {
            h.buy_px.plus(h.sell_px)?.over(Decimal::from_int(2))?
        } else {
            Decimal::zero()
        },
    };
    let notional = h.qty.times(mid)?;
    positions.record_open(
        slot.as_str(),
        pair.pair_id.as_str(),
        VenueId::named(h.buy.as_str()),
        VenueId::named(h.sell.as_str()),
        h.qty,
        k,
        notional,
        Decimal::zero(),
        Decimal::zero(),
        params.base_qty,
        h.buy_px,
        h.sell_px,
        now,
    )?;
    let _ = windows.freeze(slot.as_str());
    Ok(true)
}

/// Memory given back to all pairs, one after the other: so many slots got it.
pub open spec fn all_restored(
    m: StoreModel,
    w: WindowModel,
    cfg: AppConfig,
    books: BookMap,
    venues: Seq<VenueAccountSnapshot>,
    placing: Set<Seq<char>>,
    last_flat: Map<Seq<char>, Instant>,
    pairs: Seq<Pair>,
    now: Instant,
) -> Result<(StoreModel, WindowModel, int), ArithError>
    decreases pairs.len(),
{
    if pairs.len() == 0 {
        Ok((m, w, 0))
    } else {
        match all_restored(m, w, cfg, books, venues, placing, last_flat, pairs.drop_last(), now) {
            Err(e) => Err(e),
            Ok((a, b, n)) => match restored(
                a,
                b,
                cfg,
                books,
                venues,
                placing,
                last_flat,
                pairs.last(),
                now,
            ) {
                Err(e) => Err(e),
                Ok(None) => Ok((a, b, n)),
                Ok(Some((c, d))) => Ok((c, d, n + 1)),
            },
        }
    }
}

proof fn lemma_restored_err(
    m: StoreModel,
    w: WindowModel,
    cfg: AppConfig,
    books: BookMap,
    venues: Seq<VenueAccountSnapshot>,
    placing: Set<Seq<char>>,
    last_flat: Map<Seq<char>, Instant>,
    pairs: Seq<Pair>,
    now: Instant,
    n: int,
)
    requires
        0 <= n <= pairs.len(),
        all_restored(m, w, cfg, books, venues, placing, last_flat, pairs.take(n), now) is Err,
    ensures
        all_restored(m, w, cfg, books, venues, placing, last_flat, pairs, now) is Err,
    decreases pairs.len() - n,
{
    if n == pairs.len() {
        assert(pairs.take(n) =~= pairs);
    } else {
        assert(pairs.take(n + 1).drop_last() =~= pairs.take(n));
        lemma_restored_err(m, w, cfg, books, venues, placing, last_flat, pairs, now, n + 1);
    }
}

/// Gives memory back wherever it was lost and says to how many slots.
pub fn restore_memory_from_exchange(
    positions: &mut PositionStore,
    windows: &mut WindowBook,
    cfg: &AppConfig,
    books: &BookMap,
    accounts: &VenueAccountCache,
    placing: &KeySet,
    last_flat: &KeyMap<Instant>,
    pairs: &Vec<Pair>,
    now: Instant,
) -> (r: Result<usize, ArithError>)
    ensures
        match all_restored(
            old(positions)@,
            old(windows)@,
            *cfg,
            *books,
            accounts.venues@,
            placing@.dom(),
            last_flat@,
            pairs@,
            now,
        ) {
            Err(_) => r is Err,
            Ok((m, w, n)) => r matches Ok(k) && k == n && final(positions)@ == m && final(windows)@
                == w,
        },
{
    let mut n: usize = 0;
    let mut i: usize = 0;
    proof {
        assert(pairs@.take(0) =~= Seq::empty());
    }
    while i < pairs.len()
        invariant
            i <= pairs@.len(),
            n <= i,
            all_restored(
                old(positions)@,
                old(windows)@,
                *cfg,
                *books,
                accounts.venues@,
                placing@.dom(),
                last_flat@,
                pairs@.take(i as int),
                now,
            ) == Ok::<(StoreModel, WindowModel, int), ArithError>(
                (positions@, windows@, n as int),
            ),
        decreases pairs.len() - i,
    {
        proof {
            assert(pairs@.take(i + 1).drop_last() =~= pairs@.take(i as int));
        }
        match restore_slot(
            positions,
            windows,
            cfg,
            books,
            accounts,
            placing,
            last_flat,
            &pairs[i],
            now,
        ) {
            Ok(done) => {
                if done {
                    n = n + 1;
                }
            },
            Err(e) => {
                proof {
                    lemma_restored_err(
                        old(positions)@,
                        old(windows)@,
                        *cfg,
                        *books,
                        accounts.venues@,
                        placing@.dom(),
                        last_flat@,
                        pairs@,
                        now,
                        i + 1,
                    );
                }
                return Err(e);
            },
        }
        i = i + 1;
    }
    proof {
        assert(pairs@.take(i as int) =~= pairs@);
    }
    Ok(n)
}

// ---------------------------------------------------------------------------
// Laws
// ---------------------------------------------------------------------------

/// Settling a difference never lets memory hold more than it did.
pub proof fn law_settling_never_raises(m: AuditModel, slot: Seq<char>, exch: Decimal, now: Instant)
    requires
        m.store.positions.contains_key(slot),
    ensures
        settled(m, slot, exch, now) matches Ok(n) ==> !n.store.positions.contains_key(slot)
            || n.store.positions[slot].qty.units() <= m.store.positions[slot].qty.units(),
{
    broadcast use crate::decimal::lemma_lit, crate::decimal::lemma_sign;

    assert(lit(0, 0).units() == 0);
}

/// Memory is not given back to a slot that holds something, has an order under
/// way, or was closed a moment ago.
pub proof fn law_restore_leaves_live_slots(
    m: StoreModel,
    venues: Seq<VenueAccountSnapshot>,
    placing: Set<Seq<char>>,
    last_flat: Map<Seq<char>, Instant>,
    pair: Pair,
    now: Instant,
)
    requires
        is_open(m, pair.slot()) || m.pending.contains(pair.slot()) || placing.contains(pair.slot())
            || just_closed(last_flat, pair.slot(), now),
    ensures
        may_restore(m, venues, placing, last_flat, pair, now) == Ok::<Option<Overlap>, ArithError>(
            None,
        ),
{
}

/// The overlap of what two venues hold: there is one exactly where every venue answered and one
/// leg holds long and the other short; it is as much as the smaller holds, bought on the venue
/// that holds long and sold on the one that holds short.
pub proof fn law_overlap_is_what_both_venues_hold(
    venues: Seq<VenueAccountSnapshot>,
    pair: Pair,
    a: (Decimal, Decimal),
    b: (Decimal, Decimal),
)
    requires
        all_answered(venues),
        leg_at(venues, pair.legs@[0]) == Ok::<(Decimal, Decimal), ArithError>(a),
        leg_at(venues, pair.legs@[1]) == Ok::<(Decimal, Decimal), ArithError>(b),
        (a.0).valid(),
        (b.0).valid(),
    ensures
        ({
            let x = (a.0).units();
            let y = (b.0).units();
            let r = overlap_of(venues, pair);
            &&& r is Ok
            &&& r->Ok_0 is Some <==> (x > 0 && y < 0) || (x < 0 && y > 0)
            &&& r->Ok_0 matches Some(h) ==> {
                &&& 0 < h.qty.units() <= magnitude(x) && h.qty.units() <= magnitude(y)
                &&& h.qty.units() == magnitude(x) || h.qty.units() == magnitude(y)
                &&& x > 0 ==> h.buy == pair.legs@[0].venue.0@ && h.sell == pair.legs@[1].venue.0@
                    && h.buy_px == a.1 && h.sell_px == b.1
                &&& x < 0 ==> h.buy == pair.legs@[1].venue.0@ && h.sell == pair.legs@[0].venue.0@
                    && h.buy_px == b.1 && h.sell_px == a.1
            }
        }),
{
    lemma_size(a.0);
    lemma_size(b.0);
}

/// What memory gets back is the overlap: as it is bought and sold on the venues, on the step
/// above zero where the right venue is bought and below it otherwise, as many steps as its
/// quantity is nearest to, and worth its quantity at the price between the venues.
pub proof fn law_memory_gets_back_the_overlap(
    cfg: AppConfig,
    books: BookMap,
    pair: Pair,
    h: Overlap,
    now: Instant,
)
    ensures
        restored_position(cfg, books, pair, h, now) matches Ok(Some(p)) ==> {
            &&& p.qty == h.qty && p.buy == h.buy && p.sell == h.sell
            &&& p.buy_px == h.buy_px && p.sell_px == h.sell_px
            &&& p.pair_id == pair.pair_id@ && p.opened_at == now
            &&& p.net_pct.units() == 0 && p.raw_pct.units() == 0
            &&& restore_mid(books, pair, h) matches Ok(mid) && (multiplies_exactly(
                Ok(h.qty),
                Ok(mid),
            ) ==> p.notional.units() * whole() == h.qty.units() * mid.units())
        },
{
    broadcast use lemma_lit, lemma_sign;

}

/// The step of an overlap: above zero for the one direction and below it for the other, the
/// nearest number of steps to its quantity, at least one and at most so many.
pub proof fn law_overlap_stands_on_the_nearest_step(
    h: Overlap,
    base_qty: Decimal,
    max_step: int,
    plus: bool,
)
    requires
        1 <= max_step <= i32::MAX,
        base_qty.units() > 0,
        divides_exactly(Ok(h.qty), Ok(base_qty)),
        quot(Ok(h.qty), Ok(base_qty))->Ok_0.valid(),
    ensures
        restore_step(h, base_qty, max_step, plus) matches Ok(k) && {
            let n = magnitude(k);
            &&& k > 0 <==> plus
            &&& 1 <= n <= max_step
            &&& 1 < n < max_step ==> 2 * magnitude(n * base_qty.units() - h.qty.units())
                <= base_qty.units()
        },
{
    law_steps_are_the_nearest_number(h.qty, base_qty, max_step);
}

/// The price between the venues is that between their books; without books it is half of the two
/// entry prices together.
pub proof fn law_price_between_the_venues(books: BookMap, pair: Pair, h: Overlap)
    requires
        books.at(pair.legs@[0].venue.0@, pair.pair_id@) is None,
        h.buy_px.units() > 0,
        h.sell_px.units() > 0,
        halves_exactly(Ok(h.buy_px), Ok(h.sell_px)),
    ensures
        restore_mid(books, pair, h) matches Ok(m) && 2 * m.units() == h.buy_px.units()
            + h.sell_px.units(),
{
    lemma_half(Ok(h.buy_px), Ok(h.sell_px));
}

} // verus!
