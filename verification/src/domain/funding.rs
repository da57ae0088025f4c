//! Funding: what holding a long on one venue and a short on the other earns.
//!
//! A positive rate is paid by longs to shorts, so the pair earns the rate of the
//! venue that it sold on less that of the venue that it bought on. The sign
//! stays in the number: below zero the pair pays.

use crate::decimal::{
    dabs, diff, divides_exactly, lemma_size, lemma_whole, lemma_whole_number, lit,
    multiplies_exactly, prod, quot, subtracts_exactly, value, whole, ArithError, Calc, Decimal,
};
use crate::domain::symbol::VenueId;
use vstd::prelude::*;

verus! {

/// The present rate of a market on one venue.
#[derive(Debug)]
pub struct VenueFunding {
    pub venue: VenueId,
    /// The rate per period as a fraction. Positive: longs pay.
    pub rate: Decimal,
    /// The length of a period in seconds, as the venue says it.
    pub interval_secs: u32,
}

/// The rates of the two legs.
#[derive(Debug)]
pub struct FundingView {
    pub buy: VenueId,
    pub sell: VenueId,
    pub buy_rate: Decimal,
    pub sell_rate: Decimal,
    /// What a period earns in percent; below zero it costs.
    pub net_pct: Decimal,
    /// What a year earns in percent.
    pub net_annual_pct: Decimal,
}

impl FundingView {
    /// The rates do not cost the pair anything.
    pub open spec fn earns(self) -> bool {
        self.net_pct.units() >= 0
    }

    pub fn favorable(&self) -> (r: bool)
        ensures
            r == self.earns(),
    {
        self.net_pct.is_sign_positive()
    }
}

pub const SECS_PER_YEAR: i64 = 31_536_000;

/// How many periods a year has.
pub open spec fn periods(interval_secs: u32) -> Calc {
    quot(Ok(lit(SECS_PER_YEAR as int, 0)), Ok(lit(interval_secs as int, 0)))
}

pub open spec fn shorter(a: u32, b: u32) -> u32 {
    if b < a {
        b
    } else {
        a
    }
}

/// The rates of two legs side by side; none where a period has no length. Where
/// the periods differ the shorter one counts.
pub open spec fn funding_of(buy: VenueFunding, sell: VenueFunding) -> Result<
    Option<FundingView>,
    ArithError,
> {
    let interval = shorter(buy.interval_secs, sell.interval_secs);
    if interval == 0 {
        Ok(None)
    } else {
        let net = diff(Ok(sell.rate), Ok(buy.rate));
        match (
            prod(net, Ok(lit(100, 0))),
            prod(prod(net, periods(interval)), Ok(lit(100, 0))),
        ) {
            (Ok(net_pct), Ok(net_annual_pct)) => Ok(
                Some(
                    FundingView {
                        buy: buy.venue,
                        sell: sell.venue,
                        buy_rate: buy.rate,
                        sell_rate: sell.rate,
                        net_pct,
                        net_annual_pct,
                    },
                ),
            ),
            _ => Err(ArithError),
        }
    }
}

fn periods_per_year(interval_secs: u32) -> (r: Result<Option<Decimal>, ArithError>)
    ensures
        r == (if interval_secs == 0 {
            Ok(None)
        } else {
            crate::decimal::some_calc(periods(interval_secs))
        }),
{
    if interval_secs == 0 {
        return Ok(None);
    }
    Ok(Some(Decimal::from_int(SECS_PER_YEAR).over(Decimal::from_int(interval_secs as i64))?))
}

pub fn funding_view(buy: &VenueFunding, sell: &VenueFunding) -> (r: Result<
    Option<FundingView>,
    ArithError,
>)
    ensures
        r == funding_of(*buy, *sell),
{
    let interval: u32 = if sell.interval_secs < buy.interval_secs {
        sell.interval_secs
    } else {
        buy.interval_secs
    };
    let periods = match periods_per_year(interval)? {
        None => {
            return Ok(None);
        },
        Some(p) => p,
    };
    let hundred = Decimal::from_int(100);
    let net = sell.rate.minus(buy.rate)?;
    let net_pct = net.times(hundred)?;
    let net_annual_pct = net.times(periods)?.times(hundred)?;
    Ok(
        Some(
            FundingView {
                buy: buy.venue.clone(),
                sell: sell.venue.clone(),
                buy_rate: buy.rate,
                sell_rate: sell.rate,
                net_pct,
                net_annual_pct,
            },
        ),
    )
}

/// Opening is allowed while funding earns, and while it costs less than the
/// threshold a year. A threshold of zero does not ask.
pub open spec fn funding_admits(view: FundingView, annual_threshold_pct: Decimal) -> bool {
    view.earns() || annual_threshold_pct.units() <= 0 || dabs(view.net_annual_pct).units()
        < annual_threshold_pct.units()
}

pub fn allows_open(view: &FundingView, annual_threshold_pct: Decimal) -> (r: bool)
    ensures
        r == funding_admits(*view, annual_threshold_pct),
{
    if view.favorable() || !annual_threshold_pct.is_positive() {
        return true;
    }
    view.net_annual_pct.abs() < annual_threshold_pct
}

/// Why funding asks for a position to be closed.
#[derive(Clone, Copy, Debug, PartialEq, Eq, Structural)]
pub enum FundingExit {
    /// It earned when the position was opened and costs now.
    Reversed,
    /// It costs more than the threshold a year.
    TooCostly,
}

/// What funding asks of a position.
pub open spec fn funding_exit(
    view: FundingView,
    opened_favorable: bool,
    annual_threshold_pct: Decimal,
) -> Option<FundingExit> {
    if view.earns() {
        None
    } else if opened_favorable {
        Some(FundingExit::Reversed)
    } else if annual_threshold_pct.units() > 0 && dabs(view.net_annual_pct).units()
        >= annual_threshold_pct.units() {
        Some(FundingExit::TooCostly)
    } else {
        None
    }
}

pub fn unfavorable_for_position(
    view: &FundingView,
    opened_favorable: bool,
    annual_threshold_pct: Decimal,
) -> (r: Option<FundingExit>)
    ensures
        r == funding_exit(*view, opened_favorable, annual_threshold_pct),
{
    if opened_favorable && !view.favorable() {
        return Some(FundingExit::Reversed);
    }
    if !view.favorable() && annual_threshold_pct.is_positive() && view.net_annual_pct.abs()
        >= annual_threshold_pct {
        return Some(FundingExit::TooCostly);
    }
    None
}

/// Funding that earns never keeps a position from being opened and never asks
/// for one to be closed, however large it is.
pub proof fn law_earning_funding_never_stops(
    view: FundingView,
    opened_favorable: bool,
    annual_threshold_pct: Decimal,
)
    requires
        view.earns(),
    ensures
        funding_admits(view, annual_threshold_pct),
        funding_exit(view, opened_favorable, annual_threshold_pct) is None,
{
}

/// A position that was opened while funding cost is kept exactly as long as
/// opening it anew would be allowed.
pub proof fn law_funding_gates_agree(view: FundingView, annual_threshold_pct: Decimal)
    ensures
        funding_exit(view, false, annual_threshold_pct) is None <==> funding_admits(
            view,
            annual_threshold_pct,
        ),
{
}

/// What the rates of two legs give takes no rounding.
pub open spec fn yields_exactly(buy: VenueFunding, sell: VenueFunding, interval: u32) -> bool {
    let net = diff(Ok(sell.rate), Ok(buy.rate));
    let n = periods(interval);
    &&& subtracts_exactly(Ok(sell.rate), Ok(buy.rate))
    &&& multiplies_exactly(net, Ok(lit(100, 0)))
    &&& divides_exactly(Ok(lit(SECS_PER_YEAR as int, 0)), Ok(lit(interval as int, 0)))
    &&& multiplies_exactly(net, n)
    &&& multiplies_exactly(prod(net, n), Ok(lit(100, 0)))
}

/// A period earns a hundred times the rate of the venue sold on less that of the venue bought
/// on, and a year as many times that as the shorter period fits into it. What earns in a
/// period earns in a year.
pub proof fn law_funding_is_the_rate_sold_less_the_rate_bought(
    buy: VenueFunding,
    sell: VenueFunding,
    interval: u32,
)
    requires
        interval > 0,
        interval <= buy.interval_secs && interval <= sell.interval_secs,
        interval == buy.interval_secs || interval == sell.interval_secs,
        yields_exactly(buy, sell, interval),
    ensures
        funding_of(buy, sell) matches Ok(Some(v)) && {
            &&& v.buy == buy.venue && v.sell == sell.venue
            &&& v.buy_rate == buy.rate && v.sell_rate == sell.rate
            &&& v.net_pct.units() == 100 * (sell.rate.units() - buy.rate.units())
            &&& v.net_annual_pct.units() * interval == v.net_pct.units() * SECS_PER_YEAR
            &&& v.earns() <==> sell.rate.units() >= buy.rate.units()
        },
{
    lemma_whole();
    lemma_whole_number(100);
    lemma_whole_number(interval as int);
    lemma_whole_number(SECS_PER_YEAR as int);
    let net = diff(Ok(sell.rate), Ok(buy.rate));
    let w = whole();
    let r = sell.rate.units() - buy.rate.units();
    let pct = value(prod(net, Ok(lit(100, 0))));
    assert(pct == 100 * r) by (nonlinear_arith)
        requires
            pct * w == r * (100 * w),
            w > 0,
    ;
    let n = value(periods(interval));
    let i = interval as int;
    let y = SECS_PER_YEAR as int;
    assert(n * i == y * w) by (nonlinear_arith)
        requires
            n * (i * w) == (y * w) * w,
            w > 0,
    ;
    let a = value(prod(net, periods(interval)));
    let b = value(prod(prod(net, periods(interval)), Ok(lit(100, 0))));
    assert(b == 100 * a) by (nonlinear_arith)
        requires
            b * w == a * (100 * w),
            w > 0,
    ;
    assert(a * i == r * y) by (nonlinear_arith)
        requires
            a * w == r * n,
            n * i == y * w,
            w > 0,
    ;
    assert(b * i == pct * y) by (nonlinear_arith)
        requires
            b == 100 * a,
            pct == 100 * r,
            a * i == r * y,
    ;
}

/// Funding that costs keeps a position from being opened exactly where it costs the threshold
/// a year or more and there is a threshold; a position opened while it earned is closed as
/// soon as it costs.
pub proof fn law_costly_funding_is_held_against_the_threshold(
    view: FundingView,
    annual_threshold_pct: Decimal,
)
    requires
        view.net_pct.units() < 0,
        view.net_annual_pct.units() < 0,
        view.net_annual_pct.valid(),
    ensures
        !funding_admits(view, annual_threshold_pct) <==> 0 < annual_threshold_pct.units()
            <= -view.net_annual_pct.units(),
        funding_exit(view, true, annual_threshold_pct) == Some(FundingExit::Reversed),
        funding_exit(view, false, annual_threshold_pct) == Some(FundingExit::TooCostly)
            <==> 0 < annual_threshold_pct.units() <= -view.net_annual_pct.units(),
{
    lemma_size(view.net_annual_pct);
}

} // verus!
