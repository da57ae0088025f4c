//! Open positions and what closing them earns.

use crate::clock::{elapsed, Duration, Instant};
use crate::decimal::{
    adds_exactly, diff, divides_exactly, lemma_whole, lemma_whole_number, lit, multiplies_exactly,
    prod, quot, some_calc, subtracts_exactly, sum, value, whole, ArithError, Calc, Decimal,
};
use crate::domain::spread::{
    law_spread_is_gain_in_percent_of_the_cost, raw_spread, raw_spread_pct, spreads_exactly,
};
use crate::domain::symbol::{slot_key, slot_text, VenueId};
use vstd::prelude::*;

verus! {

/// What one close earned. The percentage is that of the whole library: 0.02 is
/// two hundredths of a percent.
#[derive(Clone, Copy, Debug)]
pub struct ThisClosePnl {
    pub usdc: Decimal,
    pub pct: Decimal,
}

/// A coin bought on one venue and sold on another.
#[derive(Debug)]
pub struct Position {
    pub pair_id: String,
    pub buy: VenueId,
    pub sell: VenueId,
    pub qty: Decimal,
    /// The step, signed: above zero the left venue is sold, below it is bought.
    pub grid: i32,
    /// What the position was worth when it was opened.
    pub entry_notional_usdc: Decimal,
    /// What opening it earned in percent, fees taken off.
    pub entry_net_pct: Decimal,
    /// What opening it earned in percent before fees.
    pub entry_raw_pct: Decimal,
    /// The average price of the leg that was bought.
    pub entry_buy_px: Decimal,
    /// The average price of the leg that was sold.
    pub entry_sell_px: Decimal,
    /// The quantity of one step when the position was opened.
    pub base_qty: Decimal,
    /// When the position was first opened. Adding to it does not change this.
    pub opened_at: Instant,
}

impl Clone for Position {
    fn clone(&self) -> (r: Position)
        ensures
            r == *self,
    {
        Position {
            pair_id: self.pair_id.clone(),
            buy: self.buy.clone(),
            sell: self.sell.clone(),
            qty: self.qty,
            grid: self.grid,
            entry_notional_usdc: self.entry_notional_usdc,
            entry_net_pct: self.entry_net_pct,
            entry_raw_pct: self.entry_raw_pct,
            entry_buy_px: self.entry_buy_px,
            entry_sell_px: self.entry_sell_px,
            base_qty: self.base_qty,
            opened_at: self.opened_at,
        }
    }
}

impl Position {
    /// All the prices of a close are known and there is something to close.
    pub open spec fn priced(self, qty: Decimal, exit_buy: Decimal, exit_sell: Decimal) -> bool {
        qty.units() > 0 && self.entry_buy_px.units() > 0 && self.entry_sell_px.units() > 0
            && exit_buy.units() > 0 && exit_sell.units() > 0
    }

    /// What the two legs earn, fees left out: the bought leg sold again, the
    /// sold leg bought back.
    pub open spec fn two_leg_pnl(self, qty: Decimal, exit_buy: Decimal, exit_sell: Decimal) -> Result<
        Option<Decimal>,
        ArithError,
    > {
        if !self.priced(qty, exit_buy, exit_sell) {
            Ok(None)
        } else {
            some_calc(
                sum(
                    prod(diff(Ok(exit_buy), Ok(self.entry_buy_px)), Ok(qty)),
                    prod(diff(Ok(self.entry_sell_px), Ok(exit_sell)), Ok(qty)),
                ),
            )
        }
    }

    /// `qty` at the mean of the two entry prices.
    pub open spec fn entry_value(self, qty: Decimal) -> Calc {
        quot(
            prod(Ok(qty), sum(Ok(self.entry_buy_px), Ok(self.entry_sell_px))),
            Ok(lit(2, 0)),
        )
    }

    /// What this close earns: what opening earned, and what the spread gives on
    /// the way back, less the fee of closing.
    pub open spec fn close_pnl(
        self,
        qty: Decimal,
        exit_buy: Decimal,
        exit_sell: Decimal,
        close_fee_pct: Decimal,
    ) -> Result<Option<ThisClosePnl>, ArithError> {
        if !self.priced(qty, exit_buy, exit_sell) {
            Ok(None)
        } else {
            match self.entry_value(qty) {
                Err(e) => Err(e),
                Ok(notional) => if notional.units() <= 0 {
                    Ok(None)
                } else {
                    match raw_spread(exit_sell, exit_buy) {
                        Err(e) => Err(e),
                        Ok(None) => Ok(None),
                        Ok(Some(exit_raw)) => {
                            let pct = diff(
                                sum(Ok(self.entry_net_pct), Ok(exit_raw)),
                                Ok(close_fee_pct),
                            );
                            match (pct, prod(quot(pct, Ok(lit(100, 0))), Ok(notional))) {
                                (Ok(p), Ok(u)) => Ok(Some(ThisClosePnl { usdc: u, pct: p })),
                                _ => Err(ArithError),
                            }
                        },
                    }
                },
            }
        }
    }

    /// How long the position has been held.
    pub fn held_for(&self, now: Instant) -> (r: Duration)
        ensures
            r.nanos == elapsed(now, self.opened_at),
    {
        now.since(self.opened_at)
    }

    /// The key of the position: that of the pair.
    pub open spec fn slot(self) -> Seq<char> {
        slot_text(self.pair_id@, self.buy.0@, self.sell.0@)
    }

    pub fn slot_key(&self) -> (r: String)
        ensures
            r@ == self.slot(),
    {
        slot_key(self.pair_id.as_str(), self.buy.as_str(), self.sell.as_str())
    }

    /// The position bought and sold on these venues.
    pub fn same_direction(&self, buy: &VenueId, sell: &VenueId) -> (r: bool)
        ensures
            r == (self.buy.0@ == buy.0@ && self.sell.0@ == sell.0@),
    {
        self.buy == *buy && self.sell == *sell
    }

    pub fn two_leg_pnl_usdc(
        &self,
        qty: Decimal,
        exit_px_buy_venue: Decimal,
        exit_px_sell_venue: Decimal,
    ) -> (r: Result<Option<Decimal>, ArithError>)
        ensures
            r == self.two_leg_pnl(qty, exit_px_buy_venue, exit_px_sell_venue),
    {
        if !qty.is_positive() || !self.entry_buy_px.is_positive()
            || !self.entry_sell_px.is_positive() || !exit_px_buy_venue.is_positive()
            || !exit_px_sell_venue.is_positive() {
            return Ok(None);
        }
        let long_pnl = exit_px_buy_venue.minus(self.entry_buy_px)?.times(qty)?;
        let short_pnl = self.entry_sell_px.minus(exit_px_sell_venue)?.times(qty)?;
        Ok(Some(long_pnl.plus(short_pnl)?))
    }

    /// `exit_px_buy_venue` is what the bought leg was sold at,
    /// `exit_px_sell_venue` what the sold leg was bought back at.
    pub fn this_close_pnl(
        &self,
        qty: Decimal,
        exit_px_buy_venue: Decimal,
        exit_px_sell_venue: Decimal,
        close_fee_pct: Decimal,
    ) -> (r: Result<Option<ThisClosePnl>, ArithError>)
        ensures
            r == self.close_pnl(qty, exit_px_buy_venue, exit_px_sell_venue, close_fee_pct),
    {
        if !qty.is_positive() || !self.entry_buy_px.is_positive()
            || !self.entry_sell_px.is_positive() || !exit_px_buy_venue.is_positive()
            || !exit_px_sell_venue.is_positive() {
            return Ok(None);
        }
        let notional = qty.times(self.entry_buy_px.plus(self.entry_sell_px)?)?.over(
            Decimal::from_int(2),
        )?;
        if !notional.is_positive() {
            return Ok(None);
        }
        match raw_spread_pct(exit_px_sell_venue, exit_px_buy_venue)? {
            None => Ok(None),
            Some(exit_raw) => {
                let pct = self.entry_net_pct.plus(exit_raw)?.minus(close_fee_pct)?;
                let usdc = pct.over(Decimal::from_int(100))?.times(notional)?;
                Ok(Some(ThisClosePnl { usdc, pct }))
            },
        }
    }
}

// ---------------------------------------------------------------------------
// Laws
// ---------------------------------------------------------------------------

/// What the two legs earn, times one, is the quantity times what the bought leg rose by and
/// what the sold leg fell by.
pub proof fn law_two_legs_earn_what_the_prices_moved(
    p: Position,
    qty: Decimal,
    exit_buy: Decimal,
    exit_sell: Decimal,
)
    requires
        p.priced(qty, exit_buy, exit_sell),
        subtracts_exactly(Ok(exit_buy), Ok(p.entry_buy_px)),
        subtracts_exactly(Ok(p.entry_sell_px), Ok(exit_sell)),
        multiplies_exactly(diff(Ok(exit_buy), Ok(p.entry_buy_px)), Ok(qty)),
        multiplies_exactly(diff(Ok(p.entry_sell_px), Ok(exit_sell)), Ok(qty)),
        adds_exactly(
            prod(diff(Ok(exit_buy), Ok(p.entry_buy_px)), Ok(qty)),
            prod(diff(Ok(p.entry_sell_px), Ok(exit_sell)), Ok(qty)),
        ),
    ensures
        p.two_leg_pnl(qty, exit_buy, exit_sell) matches Ok(Some(u)) && u.units() * whole() == (
        exit_buy.units() - p.entry_buy_px.units() + p.entry_sell_px.units() - exit_sell.units())
            * qty.units(),
{
    let a = value(prod(diff(Ok(exit_buy), Ok(p.entry_buy_px)), Ok(qty)));
    let b = value(prod(diff(Ok(p.entry_sell_px), Ok(exit_sell)), Ok(qty)));
    let x = exit_buy.units() - p.entry_buy_px.units();
    let y = p.entry_sell_px.units() - exit_sell.units();
    let q = qty.units();
    let w = whole();
    assert((a + b) * w == a * w + b * w && (x + y) * q == x * q + y * q) by (nonlinear_arith);
}

/// The earnings of a close take no rounding.
pub open spec fn earns_exactly(
    p: Position,
    qty: Decimal,
    exit_buy: Decimal,
    exit_sell: Decimal,
    close_fee_pct: Decimal,
) -> bool {
    let prices = sum(Ok(p.entry_buy_px), Ok(p.entry_sell_px));
    let back = Ok::<Decimal, ArithError>(raw_spread(exit_sell, exit_buy)->Ok_0->0);
    let pct = diff(sum(Ok(p.entry_net_pct), back), Ok(close_fee_pct));
    &&& spreads_exactly(exit_sell, exit_buy)
    &&& adds_exactly(Ok(p.entry_buy_px), Ok(p.entry_sell_px))
    &&& multiplies_exactly(Ok(qty), prices)
    &&& divides_exactly(prod(Ok(qty), prices), Ok(lit(2, 0)))
    &&& adds_exactly(Ok(p.entry_net_pct), back)
    &&& subtracts_exactly(sum(Ok(p.entry_net_pct), back), Ok(close_fee_pct))
    &&& divides_exactly(pct, Ok(lit(100, 0)))
    &&& multiplies_exactly(quot(pct, Ok(lit(100, 0))), p.entry_value(qty))
}

/// A close earns, in percent, what opening earned and the spread on the way back, from the
/// price at which the sold leg is bought back to the price at which the bought leg is sold,
/// less the fee; and in money that percentage of the quantity at the mean entry price.
pub proof fn law_a_close_earns_entry_and_exit_less_the_fee(
    p: Position,
    qty: Decimal,
    exit_buy: Decimal,
    exit_sell: Decimal,
    close_fee_pct: Decimal,
    back: Decimal,
)
    requires
        p.priced(qty, exit_buy, exit_sell),
        earns_exactly(p, qty, exit_buy, exit_sell, close_fee_pct),
        back == raw_spread(exit_sell, exit_buy)->Ok_0->0,
    ensures
        back.units() * exit_sell.units() == 100 * (exit_buy.units() - exit_sell.units())
            * whole(),
        p.close_pnl(qty, exit_buy, exit_sell, close_fee_pct) matches Ok(Some(e)) && e.pct.units()
            == p.entry_net_pct.units() + back.units() - close_fee_pct.units() && 200
            * e.usdc.units() * whole() * whole() == e.pct.units() * qty.units() * (
        p.entry_buy_px.units() + p.entry_sell_px.units()),
{
    law_spread_is_gain_in_percent_of_the_cost(exit_sell, exit_buy);
    lemma_whole();
    lemma_whole_number(2);
    lemma_whole_number(100);
    let prices = sum(Ok(p.entry_buy_px), Ok(p.entry_sell_px));
    let w = whole();
    let q = qty.units();
    let s = p.entry_buy_px.units() + p.entry_sell_px.units();
    let x = value(prod(Ok(qty), prices));
    let n = value(p.entry_value(qty));
    assert(2 * n == x) by (nonlinear_arith)
        requires
            n * (2 * w) == x * w,
            w > 0,
    ;
    assert(x > 0) by (nonlinear_arith)
        requires
            x * w == q * s,
            q > 0,
            s > 0,
            w > 0,
    ;
    let pct = diff(sum(Ok(p.entry_net_pct), Ok(back)), Ok(close_fee_pct));
    let c = value(pct);
    let part = value(quot(pct, Ok(lit(100, 0))));
    assert(100 * part == c) by (nonlinear_arith)
        requires
            part * (100 * w) == c * w,
            w > 0,
    ;
    let u = value(prod(quot(pct, Ok(lit(100, 0))), p.entry_value(qty)));
    assert(200 * u * w * w == c * q * s) by (nonlinear_arith)
        requires
            u * w == part * n,
            100 * part == c,
            2 * n == x,
            x * w == q * s,
    ;
}

} // verus!
