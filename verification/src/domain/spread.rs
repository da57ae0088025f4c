//! The spread between two venues that can be traded on: buy at the ask, sell at
//! the bid.

use crate::decimal::{
    adds_exactly, diff, lemma_lit, lemma_percent, lemma_sign, lit, percents_exactly,
    some_calc, subtracts_exactly, sum, whole, ArithError, Calc, Decimal,
};
use crate::domain::book::{pct_over, Bbo};
use crate::domain::symbol::VenueId;
use vstd::prelude::*;

verus! {

#[derive(Debug)]
pub struct NetSpread {
    pub buy: VenueId,
    pub sell: VenueId,
    pub raw_pct: Decimal,
    pub fee_pct: Decimal,
    pub slip_pct: Decimal,
    pub net_pct: Decimal,
}

/// The spread in percent of what is bought at; none without a price.
pub open spec fn raw_spread(buy_ask: Decimal, sell_bid: Decimal) -> Result<
    Option<Decimal>,
    ArithError,
> {
    if buy_ask.units() <= 0 {
        Ok(None)
    } else {
        some_calc(pct_over(sell_bid, buy_ask))
    }
}

pub fn raw_spread_pct(buy_ask: Decimal, sell_bid: Decimal) -> (r: Result<
    Option<Decimal>,
    ArithError,
>)
    ensures
        r == raw_spread(buy_ask, sell_bid),
{
    if !buy_ask.is_positive() {
        return Ok(None);
    }
    let gap = sell_bid.minus(buy_ask)?;
    let part = gap.over(buy_ask)?;
    Ok(Some(part.times(Decimal::from_int(100))?))
}

/// The spread between two books less fees and slippage.
pub open spec fn spread_of(
    buy: VenueId,
    sell: VenueId,
    buy_book: Bbo,
    sell_book: Bbo,
    fee_pct: Decimal,
    slip_pct: Decimal,
) -> Result<Option<NetSpread>, ArithError> {
    match raw_spread(buy_book.ask, sell_book.bid) {
        Ok(Some(raw)) => match diff(diff(Ok(raw), Ok(fee_pct)), Ok(slip_pct)) {
            Ok(net) => Ok(
                Some(NetSpread { buy, sell, raw_pct: raw, fee_pct, slip_pct, net_pct: net }),
            ),
            Err(e) => Err(e),
        },
        Ok(None) => Ok(None),
        Err(e) => Err(e),
    }
}

pub fn net_spread(
    buy: VenueId,
    sell: VenueId,
    buy_book: &Bbo,
    sell_book: &Bbo,
    fee_pct: Decimal,
    slip_pct: Decimal,
) -> (r: Result<Option<NetSpread>, ArithError>)
    ensures
        r == spread_of(buy, sell, *buy_book, *sell_book, fee_pct, slip_pct),
{
    match raw_spread_pct(buy_book.ask, sell_book.bid)? {
        None => Ok(None),
        Some(raw_pct) => {
            let net_pct = raw_pct.minus(fee_pct)?.minus(slip_pct)?;
            Ok(Some(NetSpread { buy, sell, raw_pct, fee_pct, slip_pct, net_pct }))
        },
    }
}

/// What buying off one book and selling into the other loses to depth; none
/// where a book does not hold the quantity.
pub open spec fn hedge_slip(buy_book: Bbo, sell_book: Bbo, qty: Decimal) -> Result<
    Option<Decimal>,
    ArithError,
> {
    match buy_book.buy_slip(qty) {
        Ok(Some(b)) => match sell_book.sell_slip(qty) {
            Ok(Some(s)) => some_calc(sum(Ok(b), Ok(s))),
            other => other,
        },
        other => other,
    }
}

pub fn hedge_slip_pct(buy_book: &Bbo, sell_book: &Bbo, qty: Decimal) -> (r: Result<
    Option<Decimal>,
    ArithError,
>)
    ensures
        r == hedge_slip(*buy_book, *sell_book, qty),
{
    match buy_book.buy_slip_pct(qty)? {
        None => Ok(None),
        Some(b) => match sell_book.sell_slip_pct(qty)? {
            None => Ok(None),
            Some(s) => Ok(Some(b.plus(s)?)),
        },
    }
}

/// The spread of one direction. Without `book_slip` slippage counts as zero; a
/// direction whose slippage is above a positive `max_slip_pct` is dropped.
pub open spec fn direction_spread(
    buy: VenueId,
    sell: VenueId,
    buy_book: Bbo,
    sell_book: Bbo,
    fee_pct: Decimal,
    qty: Decimal,
    max_slip_pct: Decimal,
    book_slip: bool,
) -> Result<Option<NetSpread>, ArithError> {
    let slip = if book_slip {
        hedge_slip(buy_book, sell_book, qty)
    } else {
        Ok(Some(lit(0, 0)))
    };
    match slip {
        Ok(Some(s)) => if max_slip_pct.units() > 0 && s.units() > max_slip_pct.units() {
            Ok(None)
        } else {
            spread_of(buy, sell, buy_book, sell_book, fee_pct, s)
        },
        Ok(None) => Ok(None),
        Err(e) => Err(e),
    }
}

fn direction(
    buy: &VenueId,
    sell: &VenueId,
    buy_book: &Bbo,
    sell_book: &Bbo,
    fee_pct: Decimal,
    qty: Decimal,
    max_slip_pct: Decimal,
    book_slip: bool,
) -> (r: Result<Option<NetSpread>, ArithError>)
    ensures
        r == direction_spread(
            *buy,
            *sell,
            *buy_book,
            *sell_book,
            fee_pct,
            qty,
            max_slip_pct,
            book_slip,
        ),
{
    let slip_pct = if book_slip {
        match hedge_slip_pct(buy_book, sell_book, qty)? {
            None => {
                return Ok(None);
            },
            Some(s) => s,
        }
    } else {
        Decimal::zero()
    };
    if max_slip_pct.is_positive() && slip_pct > max_slip_pct {
        return Ok(None);
    }
    net_spread(buy.clone(), sell.clone(), buy_book, sell_book, fee_pct, slip_pct)
}

/// The better of two spreads, the first where they are equal.
pub open spec fn better(
    a: Result<Option<NetSpread>, ArithError>,
    b: Result<Option<NetSpread>, ArithError>,
) -> Result<Option<NetSpread>, ArithError> {
    match (a, b) {
        (Ok(Some(l)), Ok(Some(r))) => if r.net_pct.units() > l.net_pct.units() {
            Ok(Some(r))
        } else {
            Ok(Some(l))
        },
        (Ok(Some(l)), Ok(None)) => Ok(Some(l)),
        (Ok(None), Ok(r)) => Ok(r),
        _ => Err(ArithError),
    }
}

/// The direction that earns more: buying on `x` and selling on `y`, or the other
/// way round. A tie keeps the first.
pub fn best_open_spread(
    venue_x: &VenueId,
    venue_y: &VenueId,
    book_x: &Bbo,
    book_y: &Bbo,
    fee_xy: Decimal,
    fee_yx: Decimal,
    qty: Decimal,
    max_slip_pct: Decimal,
    book_slip: bool,
) -> (r: Result<Option<NetSpread>, ArithError>)
    ensures
        r == better(
            direction_spread(
                *venue_x,
                *venue_y,
                *book_x,
                *book_y,
                fee_xy,
                qty,
                max_slip_pct,
                book_slip,
            ),
            direction_spread(
                *venue_y,
                *venue_x,
                *book_y,
                *book_x,
                fee_yx,
                qty,
                max_slip_pct,
                book_slip,
            ),
        ),
        r matches Ok(Some(n)) ==> (n.buy == *venue_x && n.sell == *venue_y && n.fee_pct == fee_xy)
            || (n.buy == *venue_y && n.sell == *venue_x && n.fee_pct == fee_yx),
{
    let a = direction(venue_x, venue_y, book_x, book_y, fee_xy, qty, max_slip_pct, book_slip)?;
    let b = direction(venue_y, venue_x, book_y, book_x, fee_yx, qty, max_slip_pct, book_slip)?;
    match (a, b) {
        (Some(l), Some(r)) => {
            if r.net_pct > l.net_pct {
                Ok(Some(r))
            } else {
                Ok(Some(l))
            }
        },
        (Some(l), None) => Ok(Some(l)),
        (None, b) => Ok(b),
    }
}

/// The spread that is picked earns at least as much as either direction, and
/// there is one where a direction has one.
pub proof fn law_best_spread_is_best(
    a: Result<Option<NetSpread>, ArithError>,
    b: Result<Option<NetSpread>, ArithError>,
)
    requires
        a is Ok,
        b is Ok,
    ensures
        better(a, b) is Ok,
        better(a, b)->Ok_0 is None <==> a->Ok_0 is None && b->Ok_0 is None,
        better(a, b)->Ok_0 matches Some(m) ==> {
            &&& a->Ok_0 matches Some(x) ==> m.net_pct.units() >= x.net_pct.units()
            &&& b->Ok_0 matches Some(x) ==> m.net_pct.units() >= x.net_pct.units()
            &&& a->Ok_0 == Some(m) || b->Ok_0 == Some(m)
        },
{
}

/// The spread between two prices takes no rounding.
pub open spec fn spreads_exactly(buy_ask: Decimal, sell_bid: Decimal) -> bool {
    subtracts_exactly(Ok(sell_bid), Ok(buy_ask)) && percents_exactly(
        diff(Ok(sell_bid), Ok(buy_ask)),
        Ok(buy_ask),
    )
}

/// The spread, times the price that is bought at, is a hundred times by how much the price
/// that is sold at exceeds it: above zero exactly where selling brings more than buying
/// costs.
pub proof fn law_spread_is_gain_in_percent_of_the_cost(buy_ask: Decimal, sell_bid: Decimal)
    requires
        buy_ask.units() > 0,
        spreads_exactly(buy_ask, sell_bid),
    ensures
        raw_spread(buy_ask, sell_bid) matches Ok(Some(s)) && s.units() * buy_ask.units() == 100 * (
        sell_bid.units() - buy_ask.units()) * whole() && (s.units() > 0 <==> sell_bid.units()
            > buy_ask.units()),
{
    lemma_percent(diff(Ok(sell_bid), Ok(buy_ask)), Ok(buy_ask));
}

/// What both books lose to depth, where that is asked for.
pub open spec fn slip_asked(buy_book: Bbo, sell_book: Bbo, qty: Decimal, book_slip: bool) -> Calc {
    if book_slip {
        sum(
            Ok(buy_book.buy_slip(qty)->Ok_0->0),
            Ok(sell_book.sell_slip(qty)->Ok_0->0),
        )
    } else {
        Ok(lit(0, 0))
    }
}

/// What a direction nets: the spread from the ask of the book that is bought on to the bid of
/// the book that is sold on, less the fees, less what both books lose to depth where that is
/// asked for. A direction that loses more than may be lost is dropped.
pub proof fn law_net_is_the_spread_less_fees_and_slippage(
    buy: VenueId,
    sell: VenueId,
    buy_book: Bbo,
    sell_book: Bbo,
    fee_pct: Decimal,
    qty: Decimal,
    max_slip_pct: Decimal,
    book_slip: bool,
)
    requires
        buy_book.ask.units() > 0,
        spreads_exactly(buy_book.ask, sell_book.bid),
        book_slip ==> buy_book.buy_slip(qty) is Ok && buy_book.buy_slip(qty)->Ok_0 is Some,
        book_slip ==> sell_book.sell_slip(qty) is Ok && sell_book.sell_slip(qty)->Ok_0 is Some,
        book_slip ==> adds_exactly(
            Ok(buy_book.buy_slip(qty)->Ok_0->0),
            Ok(sell_book.sell_slip(qty)->Ok_0->0),
        ),
        ({
            let raw = Ok::<Decimal, ArithError>(
                raw_spread(buy_book.ask, sell_book.bid)->Ok_0->0,
            );
            subtracts_exactly(raw, Ok(fee_pct)) && subtracts_exactly(
                diff(raw, Ok(fee_pct)),
                slip_asked(buy_book, sell_book, qty, book_slip),
            )
        }),
    ensures
        ({
            let d = direction_spread(
                buy,
                sell,
                buy_book,
                sell_book,
                fee_pct,
                qty,
                max_slip_pct,
                book_slip,
            );
            let lost = if book_slip {
                buy_book.buy_slip(qty)->Ok_0->0.units() + sell_book.sell_slip(qty)->Ok_0->0.units()
            } else {
                0
            };
            if max_slip_pct.units() > 0 && lost > max_slip_pct.units() {
                d == Ok::<Option<NetSpread>, ArithError>(None)
            } else {
                let n = d->Ok_0->0;
                &&& d is Ok && d->Ok_0 is Some
                &&& n.buy == buy && n.sell == sell
                &&& n.fee_pct == fee_pct && n.slip_pct.units() == lost
                &&& n.net_pct.units() == n.raw_pct.units() - fee_pct.units() - lost
                &&& n.raw_pct.units() * buy_book.ask.units() == 100 * (sell_book.bid.units()
                    - buy_book.ask.units()) * whole()
            }
        }),
{
    broadcast use lemma_lit, lemma_sign;

    law_spread_is_gain_in_percent_of_the_cost(buy_book.ask, sell_book.bid);
}

} // verus!
