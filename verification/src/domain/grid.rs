//! The grid: how wide a step is, and what the engine may want.

use crate::clock::Duration;
use crate::decimal::{
    adds_exactly, diff, divides_exactly, dmax, lemma_lit, lemma_sign, lemma_whole,
    lemma_whole_number, lit, multiplies_exactly, prod, quot, subtracts_exactly, sum, value, whole,
    ArithError, Calc, Decimal,
};
use crate::domain::symbol::VenueId;
use vstd::prelude::*;

verus! {

/// What is paid over a round trip: the fees and the spreads, neither counted
/// below zero.
pub open spec fn round_trip_cost(taker_pct: Decimal, spread_pct: Decimal) -> Calc {
    sum(Ok(dmax(taker_pct, lit(0, 0))), Ok(dmax(spread_pct, lit(0, 0))))
}

/// What a step must earn: the target, given in hundredths of a percent, and the
/// cost of the round trip.
pub open spec fn step_need(target_bp: Decimal, taker_pct: Decimal, spread_pct: Decimal) -> Calc {
    match quot(Ok(target_bp), Ok(lit(100, 0))) {
        Ok(t) => sum(Ok(dmax(t, lit(0, 0))), round_trip_cost(taker_pct, spread_pct)),
        Err(e) => Err(e),
    }
}

/// The part of a step that hysteresis on both sides leaves.
pub open spec fn step_span(hysteresis: Decimal) -> Calc {
    diff(Ok(lit(1, 0)), prod(Ok(dmax(hysteresis, lit(0, 0))), Ok(lit(2, 0))))
}

/// The width of a step in percent: what it must earn over the part that
/// hysteresis leaves of it, or just that where hysteresis leaves nothing, and
/// never less than the cost of the round trip.
pub open spec fn grid_step(
    target_bp: Decimal,
    taker_pct: Decimal,
    spread_pct: Decimal,
    hysteresis: Decimal,
) -> Calc {
    match (
        step_need(target_bp, taker_pct, spread_pct),
        step_span(hysteresis),
        round_trip_cost(taker_pct, spread_pct),
    ) {
        (Ok(need), Ok(span), Ok(cost)) => if span.units() <= 0 {
            Ok(dmax(need, cost))
        } else {
            match quot(Ok(need), Ok(span)) {
                Ok(s) => Ok(dmax(s, cost)),
                Err(e) => Err(e),
            }
        },
        _ => Err(ArithError),
    }
}

pub fn grid_step_from_target_bp(
    target_bp: Decimal,
    round_trip_taker_pct: Decimal,
    round_trip_spread_pct: Decimal,
    hysteresis: Decimal,
) -> (r: Calc)
    ensures
        r == grid_step(target_bp, round_trip_taker_pct, round_trip_spread_pct, hysteresis),
{
    let target_pct = target_bp.over(Decimal::from_int(100))?;
    let cost = round_trip_taker_pct.max(Decimal::zero()).plus(
        round_trip_spread_pct.max(Decimal::zero()),
    )?;
    let need = target_pct.max(Decimal::zero()).plus(cost)?;
    let span = Decimal::one().minus(hysteresis.max(Decimal::zero()).times(Decimal::from_int(2))?)?;
    let step = if !span.is_positive() {
        need
    } else {
        need.over(span)?
    };
    Ok(step.max(cost))
}

/// A step is never thinner than the cost of the round trip.
pub proof fn law_step_covers_cost(
    target_bp: Decimal,
    taker_pct: Decimal,
    spread_pct: Decimal,
    hysteresis: Decimal,
)
    ensures
        grid_step(target_bp, taker_pct, spread_pct, hysteresis) matches Ok(s)
            ==> round_trip_cost(taker_pct, spread_pct) matches Ok(c) && s.units() >= c.units(),
{
}

/// What a grid is set to.
#[derive(Clone, Copy, Debug)]
pub struct GridParams {
    pub step: Decimal,
    pub max_segments: u32,
    pub persistence: Duration,
    /// How often a line must be met within `persistence`. Zero asks that it be
    /// met all the time.
    pub persistence_min_hits: u32,
    /// The quantity of one step.
    pub base_qty: Decimal,
    /// The largest quantity of one order. Zero does not split.
    pub split_order_size: Decimal,
    /// The larger of the two legs' smallest quantities.
    pub min_qty: Decimal,
}

/// What closing would give: for the record of a round trip alone.
#[derive(Clone, Copy, Debug)]
pub struct CloseView {
    pub exit_raw_pct: Decimal,
    pub exit_net_pct: Decimal,
}

/// Why a position is closed.
#[derive(Clone, Copy, Debug, PartialEq, Eq, Structural)]
pub enum CloseReason {
    GridReduce,
    FundingStopLoss,
    HoldTimeout,
    BalanceFloor,
}

impl CloseReason {
    pub open spec fn word(self) -> Seq<char> {
        match self {
            CloseReason::GridReduce => "grid_reduce"@,
            CloseReason::FundingStopLoss => "funding_stop_loss"@,
            CloseReason::HoldTimeout => "hold_timeout"@,
            CloseReason::BalanceFloor => "balance_floor"@,
        }
    }

    pub fn as_str(self) -> (r: &'static str)
        ensures
            r@ == self.word(),
    {
        match self {
            CloseReason::GridReduce => "grid_reduce",
            CloseReason::FundingStopLoss => "funding_stop_loss",
            CloseReason::HoldTimeout => "hold_timeout",
            CloseReason::BalanceFloor => "balance_floor",
        }
    }
}

/// What the engine wants done.
#[derive(Debug)]
pub enum Intent {
    Open { qty: Decimal, buy: VenueId, sell: VenueId, grid: i32 },
    Close {
        qty: Decimal,
        grid: i32,
        reason: CloseReason,
        /// What the round trip earns in percent, for the record.
        round_trip_pct: Decimal,
    },
    Hold,
}

// ---------------------------------------------------------------------------
// Laws
// ---------------------------------------------------------------------------

/// The width of a step takes no rounding.
pub open spec fn steps_exactly(
    target_bp: Decimal,
    taker_pct: Decimal,
    spread_pct: Decimal,
    hysteresis: Decimal,
) -> bool {
    let taker = Ok::<Decimal, ArithError>(dmax(taker_pct, lit(0, 0)));
    let spread = Ok::<Decimal, ArithError>(dmax(spread_pct, lit(0, 0)));
    let target = Ok::<Decimal, ArithError>(
        dmax(quot(Ok(target_bp), Ok(lit(100, 0)))->Ok_0, lit(0, 0)),
    );
    let off = Ok::<Decimal, ArithError>(dmax(hysteresis, lit(0, 0)));
    &&& divides_exactly(Ok(target_bp), Ok(lit(100, 0)))
    &&& adds_exactly(taker, spread)
    &&& adds_exactly(target, sum(taker, spread))
    &&& multiplies_exactly(off, Ok(lit(2, 0)))
    &&& subtracts_exactly(Ok(lit(1, 0)), prod(off, Ok(lit(2, 0))))
    &&& value(diff(Ok(lit(1, 0)), prod(off, Ok(lit(2, 0))))) > 0 ==> divides_exactly(
        sum(target, sum(taker, spread)),
        diff(Ok(lit(1, 0)), prod(off, Ok(lit(2, 0)))),
    )
}

/// Not below zero.
pub open spec fn above(x: int) -> int {
    if x < 0 {
        0
    } else {
        x
    }
}

/// What is left of a step when hysteresis has taken its part on both sides is the target and
/// the fees and spreads of a round trip; where hysteresis leaves nothing, the step itself is.
pub proof fn law_a_step_earns_the_target_after_costs(
    target_bp: Decimal,
    taker_pct: Decimal,
    spread_pct: Decimal,
    hysteresis: Decimal,
)
    requires
        steps_exactly(target_bp, taker_pct, spread_pct, hysteresis),
    ensures
        grid_step(target_bp, taker_pct, spread_pct, hysteresis) is Ok,
        ({
            let step = value(grid_step(target_bp, taker_pct, spread_pct, hysteresis));
            let cost = above(taker_pct.units()) + above(spread_pct.units());
            let span = whole() - 2 * above(hysteresis.units());
            let need = above(target_bp.units()) + 100 * cost;
            &&& span > 0 ==> 100 * step * span == need * whole()
            &&& span <= 0 ==> 100 * step == need
            &&& step >= cost
        }),
{
    broadcast use lemma_lit, lemma_sign;

    lemma_whole();
    lemma_whole_number(100);
    lemma_whole_number(2);
    lemma_whole_number(1);
    let w = whole();
    let t0 = target_bp.units();
    let t = value(quot(Ok(target_bp), Ok(lit(100, 0))));
    assert(100 * t == t0) by (nonlinear_arith)
        requires
            t * (100 * w) == t0 * w,
            w > 0,
    ;
    let off = Ok::<Decimal, ArithError>(dmax(hysteresis, lit(0, 0)));
    let h = value(off);
    let hh = value(prod(off, Ok(lit(2, 0))));
    assert(hh == 2 * h) by (nonlinear_arith)
        requires
            hh * w == h * (2 * w),
            w > 0,
    ;
    assert(1 * w == w);
    let span = w - 2 * h;
    let need = value(step_need(target_bp, taker_pct, spread_pct));
    let cost = value(round_trip_cost(taker_pct, spread_pct));
    assert(need >= cost >= 0);
    if span > 0 {
        let q = value(quot(step_need(target_bp, taker_pct, spread_pct), step_span(hysteresis)));
        assert(q >= need && 100 * q * span == (100 * need) * w) by (nonlinear_arith)
            requires
                q * span == need * w,
                0 < span <= w,
                need >= 0,
        ;
    }
}

} // verus!
