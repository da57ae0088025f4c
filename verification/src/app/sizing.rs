//! Whether margin and depth carry an order. How large it is, the settings say.

use crate::app::verdict::{said, Said, Verdict};
use crate::config::SizingConfig;
use crate::decimal::{
    diff, divides_exactly, dmax, dmin, halves_exactly, lemma_extremes, lemma_half, lemma_lit,
    lemma_scaled_order,
    lemma_sign, lemma_whole, lemma_whole_number, lit, multiplies_exactly, prod, quot, some_calc,
    subtracts_exactly, sum, value, whole, ArithError, Calc, Decimal,
};
use crate::domain::book::Bbo;
use vstd::prelude::*;

verus! {

/// What a venue holds for a leg.
#[derive(Clone, Copy, Debug)]
pub struct LegMargin {
    pub available_usdc: Decimal,
    pub leverage: Decimal,
    pub reserved_usdc: Decimal,
}

impl LegMargin {
    /// What can still be bought with it: the part of the free margin that may be
    /// used, times the leverage.
    pub open spec fn free(self, utilization_pct: Decimal) -> Calc {
        match (
            quot(Ok(utilization_pct), Ok(lit(100, 0))),
            diff(Ok(self.available_usdc), Ok(self.reserved_usdc)),
        ) {
            (Ok(util), Ok(free)) => prod(
                prod(Ok(dmax(free, lit(0, 0))), Ok(util)),
                Ok(self.leverage),
            ),
            _ => Err(ArithError),
        }
    }

    pub fn free_notional(&self, utilization_pct: Decimal) -> (r: Calc)
        ensures
            r == self.free(utilization_pct),
    {
        let util = utilization_pct.over(Decimal::from_int(100))?;
        let free = self.available_usdc.minus(self.reserved_usdc)?.max(Decimal::zero());
        free.times(util)?.times(self.leverage)
    }
}

/// The margin of a leg is short of `need`.
pub open spec fn short_of(leg: LegMargin, util: Decimal, need: Decimal) -> Result<bool, ArithError> {
    match leg.free(util) {
        Ok(f) => Ok(f.units() < need.units()),
        Err(e) => Err(e),
    }
}

/// The part of the thinner best level that an order may take.
pub open spec fn depth_cap(buy_book: Bbo, sell_book: Bbo, depth_pct: Decimal) -> Calc {
    quot(
        prod(Ok(dmin(buy_book.ask_qty, sell_book.bid_qty)), Ok(depth_pct)),
        Ok(lit(100, 0)),
    )
}

/// What keeps an order from being carried.
pub open spec fn capacity(
    util: Decimal,
    depth_pct: Decimal,
    add_qty: Decimal,
    buy: LegMargin,
    sell: LegMargin,
    buy_book: Bbo,
    sell_book: Bbo,
    mid_price: Decimal,
) -> Said {
    if mid_price.units() <= 0 {
        Ok(Some("no_mid"@))
    } else if add_qty.units() <= 0 {
        Ok(Some("no_size"@))
    } else {
        match prod(Ok(add_qty), Ok(mid_price)) {
            Err(e) => Err(e),
            Ok(need) => match short_of(buy, util, need) {
                Err(e) => Err(e),
                Ok(true) => Ok(Some("no_margin"@)),
                Ok(false) => match short_of(sell, util, need) {
                    Err(e) => Err(e),
                    Ok(true) => Ok(Some("no_margin"@)),
                    Ok(false) => if depth_pct.units() > 0 {
                        match depth_cap(buy_book, sell_book, depth_pct) {
                            Err(e) => Err(e),
                            Ok(cap) => if cap.units() > 0 && add_qty.units() > cap.units() {
                                Ok(Some("thin_book"@))
                            } else {
                                Ok(None)
                            },
                        }
                    } else {
                        Ok(None)
                    },
                },
            },
        }
    }
}

/// Both legs' margin covers what is added, and it is not too large a part of the
/// best levels.
pub fn check_capacity(
    cfg: &SizingConfig,
    add_qty: Decimal,
    buy: LegMargin,
    sell: LegMargin,
    buy_book: &Bbo,
    sell_book: &Bbo,
    mid_price: Decimal,
) -> (r: Verdict)
    ensures
        said(r) == capacity(
            cfg.margin_utilization_pct,
            cfg.depth_pct,
            add_qty,
            buy,
            sell,
            *buy_book,
            *sell_book,
            mid_price,
        ),
{
    if !mid_price.is_positive() {
        return Ok(Err("no_mid"));
    }
    if !add_qty.is_positive() {
        return Ok(Err("no_size"));
    }
    let need = add_qty.times(mid_price)?;
    let util = cfg.margin_utilization_pct;
    if buy.free_notional(util)? < need {
        return Ok(Err("no_margin"));
    }
    if sell.free_notional(util)? < need {
        return Ok(Err("no_margin"));
    }
    if cfg.depth_pct.is_positive() {
        let cap = buy_book.ask_qty.min(sell_book.bid_qty).times(cfg.depth_pct)?.over(
            Decimal::from_int(100),
        )?;
        if cap.is_positive() && add_qty > cap {
            return Ok(Err("thin_book"));
        }
    }
    Ok(Ok(()))
}

/// The middle of a book.
pub open spec fn mid_of(b: Bbo) -> Calc {
    quot(sum(Ok(b.bid), Ok(b.ask)), Ok(lit(2, 0)))
}

/// The mean of two books' middles; none where one is not above zero.
pub open spec fn mid_between(b0: Bbo, b1: Bbo) -> Result<Option<Decimal>, ArithError> {
    match (mid_of(b0), mid_of(b1)) {
        (Ok(a), Ok(b)) => if a.units() <= 0 || b.units() <= 0 {
            Ok(None)
        } else {
            some_calc(quot(sum(Ok(a), Ok(b)), Ok(lit(2, 0))))
        },
        _ => Err(ArithError),
    }
}

pub fn mid_from_bbo(b0: &Bbo, b1: &Bbo) -> (r: Result<Option<Decimal>, ArithError>)
    ensures
        r == mid_between(*b0, *b1),
{
    let two = Decimal::from_int(2);
    let a = b0.bid.plus(b0.ask)?.over(two)?;
    let b = b1.bid.plus(b1.ask)?.over(two)?;
    if !a.is_positive() || !b.is_positive() {
        return Ok(None);
    }
    Ok(Some(a.plus(b)?.over(two)?))
}

// ---------------------------------------------------------------------------
// Laws
// ---------------------------------------------------------------------------

/// What a leg can still carry takes no rounding.
pub open spec fn frees_exactly(leg: LegMargin, util: Decimal) -> bool {
    let part = quot(Ok(util), Ok(lit(100, 0)));
    let left = Ok::<Decimal, ArithError>(
        dmax(diff(Ok(leg.available_usdc), Ok(leg.reserved_usdc))->Ok_0, lit(0, 0)),
    );
    &&& divides_exactly(Ok(util), Ok(lit(100, 0)))
    &&& subtracts_exactly(Ok(leg.available_usdc), Ok(leg.reserved_usdc))
    &&& multiplies_exactly(left, part)
    &&& multiplies_exactly(prod(left, part), Ok(leg.leverage))
}

/// What a leg can carry, a hundred times over: the margin that is free, times the percent of
/// it that may be used, times the leverage. Nothing where no margin is free.
pub proof fn law_free_notional_is_the_used_part_of_the_free_margin(leg: LegMargin, util: Decimal)
    requires
        frees_exactly(leg, util),
    ensures
        leg.free(util) is Ok,
        ({
            let left = leg.available_usdc.units() - leg.reserved_usdc.units();
            let free = value(leg.free(util));
            &&& left <= 0 ==> free == 0
            &&& left > 0 ==> 100 * free * whole() * whole() == left * util.units()
                * leg.leverage.units()
        }),
{
    broadcast use lemma_lit, lemma_sign;

    lemma_whole_number(100);
    lemma_whole();
    let part = quot(Ok(util), Ok(lit(100, 0)));
    let left = Ok::<Decimal, ArithError>(
        dmax(diff(Ok(leg.available_usdc), Ok(leg.reserved_usdc))->Ok_0, lit(0, 0)),
    );
    let w = whole();
    let u = util.units();
    let p = value(part);
    let l = value(left);
    let x = value(prod(left, part));
    let f = value(prod(prod(left, part), Ok(leg.leverage)));
    let lev = leg.leverage.units();
    assert(p * (100 * w) == u * w ==> 100 * p == u) by (nonlinear_arith)
        requires
            w > 0,
    ;
    assert(100 * f * w * w == l * u * lev) by (nonlinear_arith)
        requires
            100 * p == u,
            x * w == l * p,
            f * w == x * lev,
    ;
    if l == 0 {
        assert(0 * u * lev == 0) by (nonlinear_arith);
        assert(f == 0) by (nonlinear_arith)
            requires
                100 * f * w * w == 0,
                w > 0,
        ;
    }
}

/// An order that passes is no more than `depth_pct` percent of what stands at the best ask of
/// the book that is bought on, and no more than that of what stands at the best bid of the
/// book that is sold on. Both legs' margin covers its value at the price. An order above
/// either part of the books is turned away for them, unless the margin is short.
pub proof fn law_an_order_that_passes_is_carried(
    util: Decimal,
    depth_pct: Decimal,
    add_qty: Decimal,
    buy: LegMargin,
    sell: LegMargin,
    buy_book: Bbo,
    sell_book: Bbo,
    mid_price: Decimal,
)
    requires
        buy_book.ask_qty.units() > 0,
        sell_book.bid_qty.units() > 0,
        depth_pct.units() > 0,
        mid_price.units() > 0,
        add_qty.units() > 0,
        multiplies_exactly(Ok(add_qty), Ok(mid_price)),
        frees_exactly(buy, util),
        frees_exactly(sell, util),
        multiplies_exactly(
            Ok(dmin(buy_book.ask_qty, sell_book.bid_qty)),
            Ok(depth_pct),
        ),
        divides_exactly(
            prod(Ok(dmin(buy_book.ask_qty, sell_book.bid_qty)), Ok(depth_pct)),
            Ok(lit(100, 0)),
        ),
    ensures
        ({
            let c = capacity(
                util,
                depth_pct,
                add_qty,
                buy,
                sell,
                buy_book,
                sell_book,
                mid_price,
            );
            let w = whole();
            let wanted = add_qty.units() * 100 * w;
            let off_ask = buy_book.ask_qty.units() * depth_pct.units();
            let off_bid = sell_book.bid_qty.units() * depth_pct.units();
            let deep = wanted <= off_ask && wanted <= off_bid;
            let covered = value(buy.free(util)) * w >= add_qty.units() * mid_price.units()
                && value(sell.free(util)) * w >= add_qty.units() * mid_price.units();
            &&& c == Ok::<Option<Seq<char>>, ArithError>(None) <==> deep && covered
            &&& !covered ==> c == Ok::<Option<Seq<char>>, ArithError>(Some("no_margin"@))
            &&& covered && !deep ==> c == Ok::<Option<Seq<char>>, ArithError>(Some("thin_book"@))
        }),
{
    broadcast use lemma_lit, lemma_sign;

    law_free_notional_is_the_used_part_of_the_free_margin(buy, util);
    law_free_notional_is_the_used_part_of_the_free_margin(sell, util);
    lemma_whole();
    lemma_whole_number(100);
    let thin = dmin(buy_book.ask_qty, sell_book.bid_qty);
    lemma_extremes(buy_book.ask_qty, sell_book.bid_qty);
    let w = whole();
    let need = value(prod(Ok(add_qty), Ok(mid_price)));
    lemma_scaled_order(value(buy.free(util)), need, w);
    lemma_scaled_order(value(sell.free(util)), need, w);
    let x = value(prod(Ok(thin), Ok(depth_pct)));
    let cap = value(depth_cap(buy_book, sell_book, depth_pct));
    let d = depth_pct.units();
    let t = thin.units();
    let a = add_qty.units();
    assert(cap * 100 == x) by (nonlinear_arith)
        requires
            cap * (100 * w) == x * w,
            w > 0,
    ;
    assert(x > 0) by (nonlinear_arith)
        requires
            x * w == t * d,
            t > 0,
            d > 0,
            w > 0,
    ;
    lemma_scaled_order(a * 100, x, w);
    assert(a * 100 * w == (a * 100) * w);
    lemma_scaled_order(t, buy_book.ask_qty.units(), d);
    lemma_scaled_order(t, sell_book.bid_qty.units(), d);
    reveal_strlit("no_margin");
    reveal_strlit("thin_book");
}

/// The middle between two books is a fourth of their four best prices together.
pub proof fn law_middle_of_two_books(b0: Bbo, b1: Bbo)
    requires
        halves_exactly(Ok(b0.bid), Ok(b0.ask)),
        halves_exactly(Ok(b1.bid), Ok(b1.ask)),
        halves_exactly(mid_of(b0), mid_of(b1)),
        b0.bid.units() + b0.ask.units() > 0,
        b1.bid.units() + b1.ask.units() > 0,
    ensures
        mid_between(b0, b1) matches Ok(Some(m)) && 4 * m.units() == b0.bid.units()
            + b0.ask.units() + b1.bid.units() + b1.ask.units(),
{
    lemma_half(Ok(b0.bid), Ok(b0.ask));
    lemma_half(Ok(b1.bid), Ok(b1.ask));
    lemma_half(mid_of(b0), mid_of(b1));
}

} // verus!
