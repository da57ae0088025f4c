//! Handing an order over to be carried out.

use crate::app::pair_step::{capped_qty, qty_after};
use crate::app::positions::{PositionStore, StoreModel};
use crate::config::{AppConfig, OrderStyle};
use crate::decimal::{
    adds_exactly, diff, dmax, lemma_lit, lemma_sign, lit, subtracts_exactly, sum, ArithError, Calc,
    Decimal,
};
use crate::domain::grid::{GridParams, Intent};
use crate::domain::position::Position;
use crate::domain::symbol::{Pair, VenueId, VenueMarket};
use crate::keymap::KeySet;
use vstd::prelude::*;

verus! {

/// One side of an order.
#[derive(Debug)]
pub struct OrderLeg {
    pub venue: VenueId,
    pub symbol: String,
    pub market_index: i32,
    pub is_buy: bool,
    pub style: OrderStyle,
}

/// An order on two venues.
#[derive(Debug)]
pub struct Order {
    pub slot: String,
    pub pair_id: String,
    pub first: OrderLeg,
    pub second: OrderLeg,
    pub buy: VenueId,
    pub sell: VenueId,
    pub style: OrderStyle,
    pub qty: Decimal,
    pub is_open: bool,
    /// The step before and after it.
    pub grid_from: i32,
    pub grid_to: i32,
    /// The quantity of a step, which a position keeps from its opening; zero for an
    /// order that closes.
    pub base_qty: Decimal,
    /// What the decision went by.
    pub decision_net_pct: Decimal,
    pub decision_raw_pct: Decimal,
}

pub struct OrderLegModel {
    pub venue: Seq<char>,
    pub symbol: Seq<char>,
    pub market_index: i32,
    pub is_buy: bool,
    pub style: OrderStyle,
}

pub struct OrderModel {
    pub slot: Seq<char>,
    pub pair_id: Seq<char>,
    pub first: OrderLegModel,
    pub second: OrderLegModel,
    pub buy: Seq<char>,
    pub sell: Seq<char>,
    pub style: OrderStyle,
    pub qty: Decimal,
    pub is_open: bool,
    pub grid_from: i32,
    pub grid_to: i32,
    pub base_qty: Decimal,
    pub decision_net_pct: Decimal,
    pub decision_raw_pct: Decimal,
}

pub open spec fn leg_model(l: OrderLeg) -> OrderLegModel {
    OrderLegModel {
        venue: l.venue.0@,
        symbol: l.symbol@,
        market_index: l.market_index,
        is_buy: l.is_buy,
        style: l.style,
    }
}

pub open spec fn order_model(o: Order) -> OrderModel {
    OrderModel {
        slot: o.slot@,
        pair_id: o.pair_id@,
        first: leg_model(o.first),
        second: leg_model(o.second),
        buy: o.buy.0@,
        sell: o.sell.0@,
        style: o.style,
        qty: o.qty,
        is_open: o.is_open,
        grid_from: o.grid_from,
        grid_to: o.grid_to,
        base_qty: o.base_qty,
        decision_net_pct: o.decision_net_pct,
        decision_raw_pct: o.decision_raw_pct,
    }
}

/// What an intent asks for: a quantity, the step it leads to, whether it opens, and the
/// venues on which is bought and sold. A close turns the position's own venues round.
pub struct Asked {
    pub qty: Decimal,
    pub grid: i32,
    pub is_open: bool,
    pub buy: VenueId,
    pub sell: VenueId,
}

pub open spec fn asked(intent: Intent, pos: Option<Position>) -> Option<Asked> {
    match intent {
        Intent::Open { qty, buy, sell, grid } => Some(
            Asked { qty, grid, is_open: true, buy, sell },
        ),
        Intent::Close { qty, grid, reason, round_trip_pct } => match pos {
            Some(p) => Some(Asked { qty, grid, is_open: false, buy: p.sell, sell: p.buy }),
            None => None,
        },
        Intent::Hold => None,
    }
}

fn ask(intent: &Intent, pos: Option<&Position>) -> (r: Option<Asked>)
    ensures
        r == asked(*intent, seen(pos)),
{
    match intent {
        Intent::Open { qty, buy, sell, grid } => Some(
            Asked { qty: *qty, grid: *grid, is_open: true, buy: buy.clone(), sell: sell.clone() },
        ),
        Intent::Close { qty, grid, .. } => match pos {
            Some(p) => Some(
                Asked {
                    qty: *qty,
                    grid: *grid,
                    is_open: false,
                    buy: p.sell.clone(),
                    sell: p.buy.clone(),
                },
            ),
            None => None,
        },
        Intent::Hold => None,
    }
}

pub open spec fn seen(pos: Option<&Position>) -> Option<Position> {
    match pos {
        Some(p) => Some(*p),
        None => None,
    }
}

/// The order is larger than what testing allows.
pub open spec fn over_cap(cfg: AppConfig, qty: Decimal) -> bool {
    cfg.live_test.dex_test_mode && qty.units() > cfg.live_test.max_qty.units()
}

/// The leg of a pair on a venue.
pub open spec fn leg_on(pair: Pair, venue: Seq<char>) -> Option<VenueMarket> {
    if pair.legs@[0].venue.0@ == venue {
        Some(pair.legs@[0])
    } else if pair.legs@[1].venue.0@ == venue {
        Some(pair.legs@[1])
    } else {
        None
    }
}

/// A leg that takes what the book offers.
pub open spec fn taking_leg(m: VenueMarket, is_buy: bool) -> OrderLegModel {
    OrderLegModel {
        venue: m.venue.0@,
        symbol: m.raw_symbol@,
        market_index: m.market_index,
        is_buy,
        style: OrderStyle::MarketTaker,
    }
}

/// The order that an intent makes: both legs take. While testing it is capped, and a
/// capped order leads to `capped_step`. There is none for an intent that asks for
/// nothing, nor for venues that the pair does not have.
pub open spec fn planned(
    cfg: AppConfig,
    pair: Pair,
    pos: Option<Position>,
    intent: Intent,
    params: GridParams,
    net_pct: Decimal,
    raw_pct: Decimal,
    capped_step: i32,
) -> Option<OrderModel> {
    match asked(intent, pos) {
        None => None,
        Some(a) => match (leg_on(pair, a.buy.0@), leg_on(pair, a.sell.0@)) {
            (Some(b), Some(s)) => Some(
                OrderModel {
                    slot: pair.slot(),
                    pair_id: pair.pair_id@,
                    first: taking_leg(b, true),
                    second: taking_leg(s, false),
                    buy: a.buy.0@,
                    sell: a.sell.0@,
                    style: OrderStyle::MarketTaker,
                    qty: if over_cap(cfg, a.qty) {
                        cfg.live_test.max_qty
                    } else {
                        a.qty
                    },
                    is_open: a.is_open,
                    grid_from: match pos {
                        Some(p) => p.grid,
                        None => 0,
                    },
                    grid_to: if over_cap(cfg, a.qty) {
                        capped_step
                    } else {
                        a.grid
                    },
                    base_qty: if a.is_open {
                        params.base_qty
                    } else {
                        lit(0, 0)
                    },
                    decision_net_pct: net_pct,
                    decision_raw_pct: raw_pct,
                },
            ),
            _ => None,
        },
    }
}

/// The quantity of a step that a capped order goes by.
pub open spec fn capped_base(is_open: bool, pos: Option<Position>, params: GridParams) -> Decimal {
    if is_open && params.base_qty.units() > 0 {
        params.base_qty
    } else {
        match pos {
            Some(p) => p.base_qty,
            None => params.base_qty,
        }
    }
}

/// What is held after an order, at least nothing.
pub open spec fn held_after(held: Decimal, qty: Decimal, is_open: bool) -> Calc {
    if is_open {
        sum(Ok(held), Ok(qty))
    } else {
        match diff(Ok(held), Ok(qty)) {
            Ok(d) => Ok(dmax(d, lit(0, 0))),
            Err(e) => Err(e),
        }
    }
}

/// Where an order has to be capped: what is held after it, and the quantity of a step by
/// which that is told in steps.
pub fn capped_outcome(
    cfg: &AppConfig,
    pos: Option<&Position>,
    intent: &Intent,
    params: &GridParams,
) -> (r: Result<Option<(Decimal, Decimal)>, ArithError>)
    ensures
        match asked(*intent, seen(pos)) {
            None => r == Ok::<Option<(Decimal, Decimal)>, ArithError>(None),
            Some(a) => if !over_cap(*cfg, a.qty) {
                r == Ok::<Option<(Decimal, Decimal)>, ArithError>(None)
            } else {
                let held = match pos {
                    Some(p) => p.qty,
                    None => lit(0, 0),
                };
                match held_after(held, cfg.live_test.max_qty, a.is_open) {
                    Ok(after) => r == Ok::<Option<(Decimal, Decimal)>, ArithError>(
                        Some((after, capped_base(a.is_open, seen(pos), *params))),
                    ),
                    Err(_) => r is Err,
                }
            },
        },
{
    let a = match ask(intent, pos) {
        Some(a) => a,
        None => {
            return Ok(None);
        },
    };
    if !(cfg.live_test.dex_test_mode && a.qty > cfg.live_test.max_qty) {
        return Ok(None);
    }
    let held = match pos {
        Some(p) => p.qty,
        None => Decimal::zero(),
    };
    let after = qty_after(held, cfg.live_test.max_qty, a.is_open)?;
    let base = if a.is_open && params.base_qty.is_positive() {
        params.base_qty
    } else {
        match pos {
            Some(p) => p.base_qty,
            None => params.base_qty,
        }
    };
    Ok(Some((after, base)))
}

fn take(m: &VenueMarket, is_buy: bool) -> (r: OrderLeg)
    ensures
        leg_model(r) == taking_leg(*m, is_buy),
{
    OrderLeg {
        venue: m.venue.clone(),
        symbol: m.raw_symbol.clone(),
        market_index: m.market_index,
        is_buy,
        style: OrderStyle::MarketTaker,
    }
}

/// Makes the order of an intent and marks its slot: as one whose order is being placed,
/// and as taken where the order opens. `capped_step` is the step to which what
/// `capped_outcome` tells amounts.
pub fn hand_over(
    cfg: &AppConfig,
    pair: &Pair,
    pos: Option<&Position>,
    intent: &Intent,
    params: &GridParams,
    net_pct: Decimal,
    raw_pct: Decimal,
    capped_step: i32,
    positions: &mut PositionStore,
    placing: &mut KeySet,
) -> (r: Option<Order>)
    ensures
        match planned(
            *cfg,
            *pair,
            seen(pos),
            *intent,
            *params,
            net_pct,
            raw_pct,
            capped_step,
        ) {
            None => r is None && final(positions)@ == old(positions)@ && final(placing)@ == old(
                placing,
            )@,
            Some(o) => {
                &&& r matches Some(x) && order_model(x) == o
                &&& final(placing)@ == old(placing)@.insert(pair.slot(), ())
                &&& final(positions)@ == (if intent is Open {
                    StoreModel {
                        pending: old(positions)@.pending.insert(pair.slot()),
                        ..old(positions)@
                    }
                } else {
                    old(positions)@
                })
            },
        },
{
    let a = match ask(intent, pos) {
        Some(a) => a,
        None => {
            return None;
        },
    };
    let b = match pair.leg(a.buy.as_str()) {
        Some(m) => m,
        None => {
            return None;
        },
    };
    let s = match pair.leg(a.sell.as_str()) {
        Some(m) => m,
        None => {
            return None;
        },
    };
    let slot = pair.slot_key();
    if a.is_open {
        positions.reserve_open(slot.as_str());
    }
    placing.insert(slot.as_str(), ());
    let test = &cfg.live_test;
    let capped = test.dex_test_mode && a.qty > test.max_qty;
    Some(
        Order {
            slot,
            pair_id: pair.pair_id.clone(),
            first: take(b, true),
            second: take(s, false),
            qty: capped_qty(test.dex_test_mode, test.max_qty, a.qty),
            is_open: a.is_open,
            style: OrderStyle::MarketTaker,
            grid_from: match pos {
                Some(p) => p.grid,
                None => 0,
            },
            grid_to: if capped {
                capped_step
            } else {
                a.grid
            },
            base_qty: if a.is_open {
                params.base_qty
            } else {
                Decimal::zero()
            },
            decision_net_pct: net_pct,
            decision_raw_pct: raw_pct,
            buy: a.buy,
            sell: a.sell,
        },
    )
}

// ---------------------------------------------------------------------------
// Rounds
// ---------------------------------------------------------------------------

/// A leg that rests at its own side of the book.
pub open spec fn resting_leg(m: VenueMarket, is_buy: bool) -> OrderLegModel {
    OrderLegModel { style: OrderStyle::LimitMaker, ..taking_leg(m, is_buy) }
}

/// The order of a round: what is bought rests, what is sold takes. A round that closes
/// turns the venues round.
pub open spec fn round_order(
    pair: Pair,
    buy: VenueId,
    sell: VenueId,
    qty: Decimal,
    is_open: bool,
    from: i32,
    to: i32,
    net_pct: Decimal,
    raw_pct: Decimal,
) -> Option<OrderModel> {
    let (x, y) = if is_open {
        (buy, sell)
    } else {
        (sell, buy)
    };
    match (leg_on(pair, x.0@), leg_on(pair, y.0@)) {
        (Some(b), Some(s)) => Some(
            OrderModel {
                slot: pair.slot(),
                pair_id: pair.pair_id@,
                first: resting_leg(b, true),
                second: taking_leg(s, false),
                buy: x.0@,
                sell: y.0@,
                style: OrderStyle::LimitThenMarket,
                qty,
                is_open,
                grid_from: from,
                grid_to: to,
                base_qty: qty,
                decision_net_pct: net_pct,
                decision_raw_pct: raw_pct,
            },
        ),
        _ => None,
    }
}

/// Makes the order of a round and marks its slot: as one whose order is being placed and
/// rests, and as taken where the round opens.
pub fn hand_over_round(
    pair: &Pair,
    buy: &VenueId,
    sell: &VenueId,
    qty: Decimal,
    is_open: bool,
    from: i32,
    to: i32,
    net_pct: Decimal,
    raw_pct: Decimal,
    positions: &mut PositionStore,
    placing: &mut KeySet,
    pending: &mut KeySet,
) -> (r: Option<Order>)
    ensures
        match round_order(*pair, *buy, *sell, qty, is_open, from, to, net_pct, raw_pct) {
            None => r is None && final(positions)@ == old(positions)@ && final(placing)@ == old(
                placing,
            )@ && final(pending)@ == old(pending)@,
            Some(o) => {
                &&& r matches Some(x) && order_model(x) == o
                &&& final(placing)@ == old(placing)@.insert(pair.slot(), ())
                &&& final(pending)@ == old(pending)@.insert(pair.slot(), ())
                &&& final(positions)@ == (if is_open {
                    StoreModel {
                        pending: old(positions)@.pending.insert(pair.slot()),
                        ..old(positions)@
                    }
                } else {
                    old(positions)@
                })
            },
        },
{
    let (x, y) = if is_open {
        (buy, sell)
    } else {
        (sell, buy)
    };
    let b = match pair.leg(x.as_str()) {
        Some(m) => m,
        None => {
            return None;
        },
    };
    let s = match pair.leg(y.as_str()) {
        Some(m) => m,
        None => {
            return None;
        },
    };
    let slot = pair.slot_key();
    pending.insert(slot.as_str(), ());
    if is_open {
        positions.reserve_open(slot.as_str());
    }
    placing.insert(slot.as_str(), ());
    let mut first = take(b, true);
    first.style = OrderStyle::LimitMaker;
    Some(
        Order {
            slot,
            pair_id: pair.pair_id.clone(),
            first,
            second: take(s, false),
            buy: x.clone(),
            sell: y.clone(),
            style: OrderStyle::LimitThenMarket,
            qty,
            is_open,
            grid_from: from,
            grid_to: to,
            base_qty: qty,
            decision_net_pct: net_pct,
            decision_raw_pct: raw_pct,
        },
    )
}

// ---------------------------------------------------------------------------
// Laws
// ---------------------------------------------------------------------------

/// Whatever the intent, both legs take what the book offers, one buys and one sells, and
/// while testing no order is larger than what testing allows.
pub proof fn law_orders_take_on_both_sides(
    cfg: AppConfig,
    pair: Pair,
    pos: Option<Position>,
    intent: Intent,
    params: GridParams,
    net_pct: Decimal,
    raw_pct: Decimal,
    capped_step: i32,
)
    ensures
        planned(cfg, pair, pos, intent, params, net_pct, raw_pct, capped_step) matches Some(o)
            ==> {
            &&& o.style == OrderStyle::MarketTaker
            &&& o.first.style == OrderStyle::MarketTaker
            &&& o.second.style == OrderStyle::MarketTaker
            &&& o.first.is_buy && !o.second.is_buy
            &&& o.is_open == (intent is Open)
            &&& cfg.live_test.dex_test_mode ==> o.qty.units() <= cfg.live_test.max_qty.units()
        },
{
}

/// An order that opens buys and sells on the venues of the intent; one that closes turns the
/// position round, buying where it was sold and selling where it was bought. Each leg goes to
/// its own venue.
pub proof fn law_a_close_turns_the_position_round(
    cfg: AppConfig,
    pair: Pair,
    pos: Option<Position>,
    intent: Intent,
    params: GridParams,
    net_pct: Decimal,
    raw_pct: Decimal,
    capped_step: i32,
)
    ensures
        planned(cfg, pair, pos, intent, params, net_pct, raw_pct, capped_step) matches Some(o)
            ==> {
            &&& o.first.venue == o.buy && o.second.venue == o.sell
            &&& o.slot == pair.slot() && o.pair_id == pair.pair_id@
            &&& intent matches Intent::Open { qty, buy, sell, grid } ==> o.buy == buy.0@ && o.sell
                == sell.0@ && o.qty.units() <= qty.units() && (o.qty == qty ==> o.base_qty
                == params.base_qty)
            &&& intent matches Intent::Close { qty, grid, reason, round_trip_pct } ==> (
            pos matches Some(p) && o.buy == p.sell.0@ && o.sell == p.buy.0@ && o.qty.units()
                <= qty.units())
            &&& !cfg.live_test.dex_test_mode ==> (intent matches Intent::Open {
                qty,
                buy,
                sell,
                grid,
            } ==> o.qty == qty && o.grid_to == grid) && (intent matches Intent::Close {
                qty,
                grid,
                reason,
                round_trip_pct,
            } ==> o.qty == qty && o.grid_to == grid)
        },
{
}

/// What is held after an order: more by what is opened, less by what is closed, never below
/// nothing.
pub proof fn law_held_after_an_order(held: Decimal, qty: Decimal)
    requires
        adds_exactly(Ok(held), Ok(qty)),
        subtracts_exactly(Ok(held), Ok(qty)),
    ensures
        held_after(held, qty, true) matches Ok(d) && d.units() == held.units() + qty.units(),
        held_after(held, qty, false) matches Ok(d) && d.units() == (if held.units()
            > qty.units() {
            held.units() - qty.units()
        } else {
            0
        }),
{
    broadcast use lemma_lit, lemma_sign;

}

/// A round that opens buys and sells as it is told, one that closes the other way round; what is
/// bought rests and what is sold takes.
pub proof fn law_a_closing_round_turns_the_venues_round(
    pair: Pair,
    buy: VenueId,
    sell: VenueId,
    qty: Decimal,
    is_open: bool,
    from: i32,
    to: i32,
    net_pct: Decimal,
    raw_pct: Decimal,
)
    ensures
        round_order(pair, buy, sell, qty, is_open, from, to, net_pct, raw_pct) matches Some(o)
            ==> {
            &&& is_open ==> o.buy == buy.0@ && o.sell == sell.0@
            &&& !is_open ==> o.buy == sell.0@ && o.sell == buy.0@
            &&& o.first.venue == o.buy && o.first.is_buy && o.first.style
                == OrderStyle::LimitMaker
            &&& o.second.venue == o.sell && !o.second.is_buy && o.second.style
                == OrderStyle::MarketTaker
            &&& o.qty == qty && o.grid_from == from && o.grid_to == to && o.is_open == is_open
        },
{
}

} // verus!
