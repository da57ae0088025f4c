//! A look at a slot that is filled in rounds: from what is switched on to the round
//! that is placed.

use crate::app::balance::BalanceCache;
use crate::app::burst::{
    burst_base, burst_base_qty, burst_enter, burst_entered, close_round, close_round_of,
    grid_after_round, open_round, open_round_of, peak_qty, round_grid, BurstBlock, BurstFacts,
    BurstPhase, BurstSlot, BurstStep, OpenRound, RoundStep,
};
use crate::app::intervention::{resumed, waits_on, InterventionGuard};
use crate::app::pair_look::{is_chosen, is_held, seen_position};
use crate::app::pair_step::{by_direction, margin_on, open_refusal, seen_book, venues_chosen};
use crate::app::risk::{books_tradable, tradable};
use crate::app::sizing::{capacity, mid_between, mid_from_bbo};
use crate::clock::{Duration, Instant};
use crate::config::AppConfig;
use crate::decimal::{lit, prod, ArithError, Decimal};
use crate::domain::book::Bbo;
use crate::domain::position::Position;
use crate::domain::symbol::{Pair, VenueId};
use crate::keymap::KeyMap;
use vstd::prelude::*;

verus! {

/// What a look at a slot came to.
#[derive(Debug)]
pub enum BurstLook {
    /// It ended before the books were read.
    Entered(BurstStep),
    /// The books or the settings do not allow it.
    Blocked(BurstBlock),
    /// It pauses or rests.
    Resting,
    /// No round is placed now.
    Round(RoundStep),
    /// A round is placed.
    Place { is_open: bool, buy: VenueId, sell: VenueId, qty: Decimal },
}

/// What a look goes by.
pub struct BurstSight {
    pub cfg: AppConfig,
    pub facts: BurstFacts,
    pub keys_ready: bool,
    /// The coin stands open on one side, or is just being hedged.
    pub naked: bool,
    pub chosen: bool,
    pub pair: Pair,
    pub pos: Option<Position>,
    pub balances: Map<Seq<char>, Decimal>,
    pub bound: Map<Seq<char>, Decimal>,
    pub b0: Option<Bbo>,
    pub b1: Option<Bbo>,
    /// Where to buy and where to sell all rounds together; none without a spread.
    pub all: Option<(VenueId, VenueId)>,
    /// The same for one round.
    pub one: Option<(VenueId, VenueId)>,
    pub book_floor: Decimal,
    pub cooldown: Duration,
    pub now: Instant,
}

/// The margin does not carry all rounds together. Without a spread it is not asked,
/// and it is asked once.
pub open spec fn beyond_margin(x: BurstSight, st: BurstSlot, base_qty: Decimal) -> Result<
    bool,
    ArithError,
> {
    if st.peak_capacity_checked {
        Ok(false)
    } else {
        match (
            prod(Ok(base_qty), Ok(lit(x.cfg.burst.open_repeats as int, 0))),
            mid_between(x.b0->0, x.b1->0),
        ) {
            (Ok(peak), Ok(mid)) => match x.all {
                None => Ok(false),
                Some((buy, sell)) => {
                    let (bb, sb) = by_direction(
                        buy.0@,
                        x.pair.legs@[0].venue.0@,
                        x.b0->0,
                        x.b1->0,
                    );
                    match capacity(
                        x.cfg.sizing.margin_utilization_pct,
                        x.cfg.sizing.depth_pct,
                        peak,
                        margin_on(x.cfg, x.balances, x.bound, buy.0@),
                        margin_on(x.cfg, x.balances, x.bound, sell.0@),
                        bb,
                        sb,
                        match mid {
                            Some(m) => m,
                            None => lit(0, 0),
                        },
                    ) {
                        Ok(word) => Ok(word is Some),
                        Err(e) => Err(e),
                    }
                },
            },
            _ => Err(ArithError),
        }
    }
}

/// A slot that opens.
pub open spec fn opening(x: BurstSight, st: BurstSlot, base_qty: Decimal) -> (
    BurstSlot,
    Result<BurstLook, ArithError>,
) {
    let repeats = x.cfg.burst.open_repeats;
    let best = OpenRound {
        held: is_held(x.pos),
        naked: x.naked,
        chosen: x.chosen,
        refused: false,
        has_spread: true,
        tradable: true,
    };
    let (after, step) = open_round_of(st, best, repeats, x.now, x.cooldown);
    if step != RoundStep::Place {
        (after, Ok(BurstLook::Round(step)))
    } else {
        match beyond_margin(x, st, base_qty) {
            Err(e) => (st, Err(e)),
            Ok(true) => (st, Ok(BurstLook::Round(RoundStep::NoCapacity))),
            Ok(false) => match x.one {
                None => (after, Ok(BurstLook::Round(RoundStep::NoSpread))),
                Some((buy, sell)) => match tradable(
                    x.cfg,
                    x.pair,
                    x.b0->0,
                    x.b1->0,
                    x.book_floor,
                    base_qty,
                    x.now,
                ) {
                    Err(e) => (after, Err(e)),
                    Ok(Some(_)) => (after, Ok(BurstLook::Round(RoundStep::Thin))),
                    Ok(None) => (
                        after,
                        Ok(BurstLook::Place { is_open: true, buy, sell, qty: base_qty }),
                    ),
                },
            },
        }
    }
}

/// A slot that closes.
pub open spec fn closing(x: BurstSight, st: BurstSlot, base_qty: Decimal) -> (
    BurstSlot,
    Result<BurstLook, ArithError>,
) {
    let held = match x.pos {
        Some(p) => p.qty,
        None => lit(0, 0),
    };
    let (after, qty) = close_round_of(st, base_qty, held, x.now, x.cooldown);
    match (qty, x.pos) {
        (Some(q), Some(p)) => (
            after,
            Ok(BurstLook::Place { is_open: false, buy: p.buy, sell: p.sell, qty: q }),
        ),
        _ => (after, Ok(BurstLook::Round(RoundStep::Rest))),
    }
}

/// A whole look: the slot after it, and what it came to.
pub open spec fn burst_looked(x: BurstSight, st: BurstSlot) -> (
    BurstSlot,
    Result<BurstLook, ArithError>,
) {
    let (next, step) = burst_entered(st, x.facts, x.cfg.burst.open_repeats, x.now, x.cooldown);
    if step != BurstStep::Go {
        (next, Ok(BurstLook::Entered(step)))
    } else {
        match burst_base(x.cfg, x.keys_ready, x.b0, x.b1, x.pair.legs@[0].base@, x.now) {
            Err(e) => (next, Err(e)),
            Ok(Err(block)) => (next, Ok(BurstLook::Blocked(block))),
            Ok(Ok(base_qty)) => match next.phase {
                BurstPhase::Opening => opening(x, next, base_qty),
                BurstPhase::Closing => closing(x, next, base_qty),
                _ => (next, Ok(BurstLook::Resting)),
            },
        }
    }
}

fn refused_all(
    cfg: &AppConfig,
    st: BurstSlot,
    balance: &BalanceCache,
    bound: &KeyMap<Decimal>,
    v0: &VenueId,
    b0: &Bbo,
    b1: &Bbo,
    all: Option<(&VenueId, &VenueId)>,
    base_qty: Decimal,
) -> (r: Result<bool, ArithError>)
    ensures
        forall|x: BurstSight|
            x.cfg == *cfg && x.balances == balance.by_venue@ && x.bound == bound@
                && x.pair.legs@[0].venue.0@ == v0.0@ && x.b0 == Some(*b0) && x.b1 == Some(*b1)
                && x.all == seen_way(all) ==> r == #[trigger] beyond_margin(x, st, base_qty),
{
    if st.peak_capacity_checked {
        return Ok(false);
    }
    let peak = peak_qty(base_qty, cfg.burst.open_repeats)?;
    let mid = match mid_from_bbo(b0, b1)? {
        Some(m) => m,
        None => Decimal::zero(),
    };
    match all {
        None => Ok(false),
        Some((buy, sell)) => {
            let verdict = open_refusal(
                cfg,
                balance,
                bound,
                buy,
                sell,
                peak,
                v0,
                b0,
                b1,
                mid,
                true,
            )?;
            Ok(verdict.is_err())
        },
    }
}

/// Where to buy and where to sell.
pub open spec fn seen_way(w: Option<(&VenueId, &VenueId)>) -> Option<(VenueId, VenueId)> {
    match w {
        Some((buy, sell)) => Some((*buy, *sell)),
        None => None,
    }
}

/// Looks at a slot that is filled in rounds. `all` and `one` say where all rounds
/// together and where one round would buy and sell.
pub fn look_at_burst(
    cfg: &AppConfig,
    st: &mut BurstSlot,
    facts: BurstFacts,
    keys_ready: bool,
    naked: bool,
    active: Option<&Vec<String>>,
    pair: &Pair,
    pos: Option<&Position>,
    balance: &BalanceCache,
    bound: &KeyMap<Decimal>,
    b0: Option<&Bbo>,
    b1: Option<&Bbo>,
    all: Option<(&VenueId, &VenueId)>,
    one: Option<(&VenueId, &VenueId)>,
    book_floor: Decimal,
    cooldown: Duration,
    now: Instant,
) -> (r: Result<BurstLook, ArithError>)
    ensures
        ({
            let list = match active {
                Some(v) => Some(v@),
                None => None,
            };
            let x = BurstSight {
                cfg: *cfg,
                facts,
                keys_ready,
                naked,
                chosen: is_chosen(list, *pair),
                pair: *pair,
                pos: seen_position(pos),
                balances: balance.by_venue@,
                bound: bound@,
                b0: seen_book(b0),
                b1: seen_book(b1),
                all: seen_way(all),
                one: seen_way(one),
                book_floor,
                cooldown,
                now,
            };
            (*final(st), r) == burst_looked(x, *old(st))
        }),
{
    let repeats: u32 = cfg.burst.open_repeats;
    let (next, step) = burst_enter(*st, facts, repeats, now, cooldown);
    *st = next;
    if step != BurstStep::Go {
        return Ok(BurstLook::Entered(step));
    }
    let base = burst_base_qty(cfg, keys_ready, b0, b1, pair.legs[0].base.as_str(), now)?;
    let base_qty = match base {
        Err(block) => {
            return Ok(BurstLook::Blocked(block));
        },
        Ok(q) => q,
    };
    let (left, right) = match (b0, b1) {
        (Some(a), Some(b)) => (a, b),
        _ => {
            return Ok(BurstLook::Blocked(BurstBlock::NoBook));
        },
    };
    match next.phase {
        BurstPhase::Opening => {
            let best = OpenRound {
                held: match pos {
                    Some(p) => p.qty.is_positive(),
                    None => false,
                },
                naked,
                chosen: venues_chosen(active, pair),
                refused: false,
                has_spread: true,
                tradable: true,
            };
            let (after, round) = open_round(next, best, repeats, now, cooldown);
            if round != RoundStep::Place {
                *st = after;
                return Ok(BurstLook::Round(round));
            }
            let beyond = refused_all(
                cfg,
                next,
                balance,
                bound,
                &pair.legs[0].venue,
                left,
                right,
                all,
                base_qty,
            )?;
            if beyond {
                return Ok(BurstLook::Round(RoundStep::NoCapacity));
            }
            *st = after;
            match one {
                None => Ok(BurstLook::Round(RoundStep::NoSpread)),
                Some((buy, sell)) => {
                    let verdict = books_tradable(
                        cfg,
                        pair,
                        left,
                        right,
                        book_floor,
                        base_qty,
                        now,
                    )?;
                    match verdict {
                        Err(_) => Ok(BurstLook::Round(RoundStep::Thin)),
                        Ok(_) => Ok(
                            BurstLook::Place {
                                is_open: true,
                                buy: buy.clone(),
                                sell: sell.clone(),
                                qty: base_qty,
                            },
                        ),
                    }
                },
            }
        },
        BurstPhase::Closing => {
            let held = match pos {
                Some(p) => p.qty,
                None => Decimal::zero(),
            };
            let (after, qty) = close_round(next, base_qty, held, now, cooldown);
            *st = after;
            match (qty, pos) {
                (Some(q), Some(p)) => Ok(
                    BurstLook::Place {
                        is_open: false,
                        buy: p.buy.clone(),
                        sell: p.sell.clone(),
                        qty: q,
                    },
                ),
                _ => Ok(BurstLook::Round(RoundStep::Rest)),
            }
        },
        _ => Ok(BurstLook::Resting),
    }
}

/// What becomes of a round that is to be placed.
#[derive(Clone, Copy, Debug, PartialEq, Eq, Structural)]
pub enum RoundGate {
    /// Another order is under way.
    InFlight,
    /// The pair waits for a person.
    Blocked,
    /// It goes out; from which step to which.
    Go { from: i32, to: i32 },
}

/// The last question before a round. Rounds wait for one another, and neither opening
/// nor closing goes by a memory that cannot be trusted.
pub fn round_gate(
    guard: &mut InterventionGuard,
    pair_id: &str,
    in_flight: bool,
    grid: Option<i32>,
    is_open: bool,
    now: Instant,
) -> (r: RoundGate)
    requires
        grid is Some && is_open ==> grid->0 < i32::MAX,
    ensures
        ({
            let m = old(guard)@;
            let from = match grid {
                Some(k) => k,
                None => 0,
            };
            &&& r == (if in_flight {
                RoundGate::InFlight
            } else if waits_on(m, pair_id@, grid, now) {
                RoundGate::Blocked
            } else {
                RoundGate::Go { from, to: round_grid(from as int, is_open) as i32 }
            })
            &&& final(guard)@ == (if r is Go && m.pairs.contains_key(pair_id@) {
                resumed(m, pair_id@)
            } else {
                m
            })
        }),
{
    if in_flight {
        return RoundGate::InFlight;
    }
    if guard.should_block(pair_id, grid, now).blocked() {
        return RoundGate::Blocked;
    }
    let from: i32 = match grid {
        Some(k) => k,
        None => 0,
    };
    RoundGate::Go { from, to: grid_after_round(from, is_open) }
}

// ---------------------------------------------------------------------------
// Laws
// ---------------------------------------------------------------------------

/// A round that opens is placed only while trading is switched on, on venues whose
/// keys are there, and before the last one was filled.
pub proof fn law_rounds_open_in_time(x: BurstSight, st: BurstSlot)
    requires
        burst_looked(x, st).1 matches Ok(BurstLook::Place { is_open, buy, sell, qty }) && is_open,
    ensures
        x.facts.enabled,
        x.keys_ready,
        burst_entered(
            st,
            x.facts,
            x.cfg.burst.open_repeats,
            x.now,
            x.cooldown,
        ).0.open_reps_done < x.cfg.burst.open_repeats,
        burst_looked(x, st).0.peak_capacity_checked,
{
}

/// A round that closes takes no more than is held.
pub proof fn law_rounds_close_what_is_held(x: BurstSight, st: BurstSlot)
    requires
        burst_looked(x, st).1 matches Ok(BurstLook::Place { is_open, buy, sell, qty }) && !is_open,
    ensures
        is_held(x.pos),
        burst_looked(x, st).1->Ok_0->qty.units() <= x.pos->0.qty.units(),
        burst_looked(x, st).1->Ok_0->buy == x.pos->0.buy,
        burst_looked(x, st).1->Ok_0->sell == x.pos->0.sell,
{
}

} // verus!
