//! Order books: the best prices, their depth and what it costs to walk them.

use crate::clock::{elapsed, Instant, NANOS_PER_MILLI};
use crate::decimal::{
    adds_exactly, diff, divides_exactly, dmin, finer, lemma_lit, lemma_percent, lemma_sign, lit,
    multiplies_exactly, percents_exactly, prod, quot, some_calc, subtracts_exactly, sum, value,
    whole, ArithError, Calc, Decimal,
};
use crate::keymap::KeyMap;
use vstd::prelude::*;

verus! {

/// One price and the quantity that stands at it.
pub type Level = (Decimal, Decimal);

/// The top of a book and the levels behind it.
#[derive(Debug)]
pub struct Bbo {
    pub bid: Decimal,
    pub ask: Decimal,
    pub bid_qty: Decimal,
    pub ask_qty: Decimal,
    /// Best bid first.
    pub bids: Vec<Level>,
    /// Best ask first.
    pub asks: Vec<Level>,
    pub ts: Instant,
}

/// The levels copied.
pub fn copy_levels(v: &Vec<Level>) -> (r: Vec<Level>)
    ensures
        r@ == v@,
{
    let mut out: Vec<Level> = Vec::new();
    let mut i: usize = 0;
    while i < v.len()
        invariant
            i <= v@.len(),
            out@ == v@.take(i as int),
        decreases v.len() - i,
    {
        out.push(v[i]);
        proof {
            assert(v@.take(i as int).push(v@[i as int]) =~= v@.take(i + 1));
        }
        i = i + 1;
    }
    proof {
        assert(v@.take(v@.len() as int) =~= v@);
    }
    out
}

impl Clone for Bbo {
    fn clone(&self) -> (r: Bbo)
        ensures
            r.bid == self.bid,
            r.ask == self.ask,
            r.bid_qty == self.bid_qty,
            r.ask_qty == self.ask_qty,
            r.bids@ == self.bids@,
            r.asks@ == self.asks@,
            r.ts == self.ts,
    {
        Bbo {
            bid: self.bid,
            ask: self.ask,
            bid_qty: self.bid_qty,
            ask_qty: self.ask_qty,
            bids: copy_levels(&self.bids),
            asks: copy_levels(&self.asks),
            ts: self.ts,
        }
    }
}

/// The latest book of every market, by venue and pair.
pub struct BookMap {
    venues: KeyMap<KeyMap<Bbo>>,
}

/// What stands under `venue` and `pair`.
pub open spec fn book_at(m: Map<Seq<char>, KeyMap<Bbo>>, venue: Seq<char>, pair: Seq<char>) -> Option<
    Bbo,
> {
    if m.contains_key(venue) && m[venue]@.contains_key(pair) {
        Some(m[venue]@[pair])
    } else {
        None
    }
}

impl BookMap {
    pub closed spec fn by_venue(self) -> Map<Seq<char>, KeyMap<Bbo>> {
        self.venues@
    }

    /// The book of a market.
    pub open spec fn at(self, venue: Seq<char>, pair: Seq<char>) -> Option<Bbo> {
        book_at(self.by_venue(), venue, pair)
    }

    /// Puts the latest book of a market in.
    pub fn put(&mut self, venue: &str, pair_id: &str, bbo: Bbo)
        ensures
            final(self).at(venue@, pair_id@) == Some(bbo),
            forall|v: Seq<char>, p: Seq<char>|
                v != venue@ || p != pair_id@ ==> #[trigger] final(self).at(v, p) == old(self).at(
                    v,
                    p,
                ),
    {
        let mut inner = match self.venues.remove(venue) {
            Some(m) => m,
            None => KeyMap::new(),
        };
        inner.insert(pair_id, bbo);
        self.venues.insert(venue, inner);
    }
}

/// No books yet.
pub fn new_books() -> (r: BookMap)
    ensures
        forall|v: Seq<char>, p: Seq<char>| #[trigger] r.at(v, p) is None,
{
    BookMap { venues: KeyMap::new() }
}

/// The latest book of a market.
pub fn read_book<'a>(books: &'a BookMap, venue: &str, pair_id: &str) -> (r: Option<&'a Bbo>)
    ensures
        match r {
            Some(b) => books.at(venue@, pair_id@) == Some(*b),
            None => books.at(venue@, pair_id@) is None,
        },
{
    match books.venues.get(venue) {
        Some(m) => m.get(pair_id),
        None => None,
    }
}

// ---------------------------------------------------------------------------
// What a book says
// ---------------------------------------------------------------------------

/// The quantities of the levels summed up behind `acc`.
pub open spec fn depth(levels: Seq<Level>, acc: Calc) -> Calc
    decreases levels.len(),
{
    if levels.len() == 0 {
        acc
    } else {
        depth(levels.drop_first(), sum(acc, Ok(levels[0].1)))
    }
}

/// What is still to be taken and what was paid, once `left` was taken out of
/// the levels behind a payment of `paid`. Levels without a price or a quantity
/// are passed over.
pub open spec fn walked(levels: Seq<Level>, left: Decimal, paid: Decimal) -> Result<
    (Decimal, Decimal),
    ArithError,
>
    decreases levels.len(),
{
    if levels.len() == 0 {
        Ok((left, paid))
    } else {
        let (px, sz) = levels[0];
        if px.units() <= 0 || sz.units() <= 0 {
            walked(levels.drop_first(), left, paid)
        } else {
            let take = dmin(left, sz);
            match (sum(Ok(paid), prod(Ok(take), Ok(px))), diff(Ok(left), Ok(take))) {
                (Ok(p), Ok(l)) => if l.units() <= 0 {
                    Ok((l, p))
                } else {
                    walked(levels.drop_first(), l, p)
                },
                _ => Err(ArithError),
            }
        }
    }
}

/// The average price of taking `qty` out of the levels; none where they do not
/// hold it.
pub open spec fn vwap_of(levels: Seq<Level>, qty: Decimal) -> Result<Option<Decimal>, ArithError> {
    if qty.units() <= 0 {
        Ok(None)
    } else {
        match walked(levels, qty, lit(0, 0)) {
            Ok((left, paid)) => if left.units() > 0 {
                Ok(None)
            } else {
                some_calc(quot(Ok(paid), Ok(qty)))
            },
            Err(e) => Err(e),
        }
    }
}

/// `(x - base) / base` in percent.
pub open spec fn pct_over(x: Decimal, base: Decimal) -> Calc {
    prod(quot(diff(Ok(x), Ok(base)), Ok(base)), Ok(lit(100, 0)))
}

/// `(base - x) / base` in percent.
pub open spec fn pct_under(x: Decimal, base: Decimal) -> Calc {
    prod(quot(diff(Ok(base), Ok(x)), Ok(base)), Ok(lit(100, 0)))
}

impl Bbo {
    /// Both prices are above zero and the bid is below the ask.
    pub open spec fn sound(self) -> bool {
        self.bid.units() > 0 && self.ask.units() > 0 && self.ask.units() > self.bid.units()
    }

    /// No older than `freshness_ms` milliseconds.
    pub open spec fn fresh(self, freshness_ms: int, now: Instant) -> bool {
        elapsed(now, self.ts) / (NANOS_PER_MILLI as int) <= freshness_ms
    }

    /// The distance of the two prices in percent of the ask.
    pub open spec fn own_spread(self) -> Result<Option<Decimal>, ArithError> {
        if self.ask.units() <= 0 {
            Ok(None)
        } else {
            some_calc(pct_under(self.bid, self.ask))
        }
    }

    /// How much dearer than the best ask buying `qty` is, in percent.
    pub open spec fn buy_slip(self, qty: Decimal) -> Result<Option<Decimal>, ArithError> {
        match vwap_of(self.asks@, qty) {
            Ok(Some(v)) => if self.ask.units() <= 0 {
                Ok(None)
            } else {
                some_calc(pct_over(v, self.ask))
            },
            other => other,
        }
    }

    /// How much cheaper than the best bid selling `qty` is, in percent.
    pub open spec fn sell_slip(self, qty: Decimal) -> Result<Option<Decimal>, ArithError> {
        match vwap_of(self.bids@, qty) {
            Ok(Some(v)) => if self.bid.units() <= 0 {
                Ok(None)
            } else {
                some_calc(pct_under(v, self.bid))
            },
            other => other,
        }
    }

    pub fn is_fresh(&self, freshness_ms: u64, now: Instant) -> (r: bool)
        ensures
            r == self.fresh(freshness_ms as int, now),
    {
        now.since(self.ts).as_millis() <= freshness_ms as u128
    }

    /// A locked book, whose bid equals its ask, is a fault of the data and not a
    /// quote.
    pub fn valid(&self) -> (r: bool)
        ensures
            r == self.sound(),
    {
        self.bid.is_positive() && self.ask.is_positive() && self.ask > self.bid
    }

    /// The venue's own spread: a wide one says that its quotes are not to be
    /// trusted.
    pub fn own_spread_pct(&self) -> (r: Result<Option<Decimal>, ArithError>)
        ensures
            r == self.own_spread(),
    {
        if !self.ask.is_positive() {
            return Ok(None);
        }
        let gap = self.ask.minus(self.bid)?;
        let part = gap.over(self.ask)?;
        Ok(Some(part.times(Decimal::from_int(100))?))
    }

    /// The smallest step of the price: the finer of the two prices' scales.
    pub fn price_tick(&self) -> (r: Decimal)
        ensures
            r == lit(1, finer(self.bid, self.ask)),
            r.mant() == 1,
    {
        let a = self.bid.scale();
        let b = self.ask.scale();
        Decimal::new(
            1,
            if a < b {
                b
            } else {
                a
            },
        )
    }

    pub fn bid_depth(&self) -> (r: Calc)
        ensures
            r == depth(self.bids@, Ok(lit(0, 0))),
    {
        total(&self.bids)
    }

    pub fn ask_depth(&self) -> (r: Calc)
        ensures
            r == depth(self.asks@, Ok(lit(0, 0))),
    {
        total(&self.asks)
    }

    /// The average price of buying `qty` off the asks.
    pub fn buy_vwap(&self, qty: Decimal) -> (r: Result<Option<Decimal>, ArithError>)
        ensures
            r == vwap_of(self.asks@, qty),
    {
        vwap(&self.asks, qty)
    }

    /// The average price of selling `qty` into the bids.
    pub fn sell_vwap(&self, qty: Decimal) -> (r: Result<Option<Decimal>, ArithError>)
        ensures
            r == vwap_of(self.bids@, qty),
    {
        vwap(&self.bids, qty)
    }

    pub fn buy_slip_pct(&self, qty: Decimal) -> (r: Result<Option<Decimal>, ArithError>)
        ensures
            r == self.buy_slip(qty),
    {
        match self.buy_vwap(qty)? {
            None => Ok(None),
            Some(v) => slip_from_best(v, self.ask),
        }
    }

    pub fn sell_slip_pct(&self, qty: Decimal) -> (r: Result<Option<Decimal>, ArithError>)
        ensures
            r == self.sell_slip(qty),
    {
        match self.sell_vwap(qty)? {
            None => Ok(None),
            Some(v) => {
                if !self.bid.is_positive() {
                    return Ok(None);
                }
                let gap = self.bid.minus(v)?;
                let part = gap.over(self.bid)?;
                Ok(Some(part.times(Decimal::from_int(100))?))
            },
        }
    }
}

proof fn lemma_depth_err(levels: Seq<Level>)
    ensures
        depth(levels, Err(ArithError)) == Err::<Decimal, ArithError>(ArithError),
    decreases levels.len(),
{
    if levels.len() > 0 {
        lemma_depth_err(levels.drop_first());
    }
}

fn total(levels: &Vec<Level>) -> (r: Calc)
    ensures
        r == depth(levels@, Ok(lit(0, 0))),
{
    let mut acc = Decimal::zero();
    let mut i: usize = 0;
    proof {
        assert(levels@.skip(0) =~= levels@);
    }
    while i < levels.len()
        invariant
            i <= levels@.len(),
            depth(levels@, Ok(lit(0, 0))) == depth(levels@.skip(i as int), Ok(acc)),
        decreases levels.len() - i,
    {
        proof {
            assert(levels@.skip(i as int).drop_first() =~= levels@.skip(i + 1));
        }
        match acc.plus(levels[i].1) {
            Ok(s) => {
                acc = s;
            },
            Err(e) => {
                proof {
                    lemma_depth_err(levels@.skip(i + 1));
                }
                return Err(e);
            },
        }
        i = i + 1;
    }
    Ok(acc)
}

fn vwap(levels: &Vec<Level>, qty: Decimal) -> (r: Result<Option<Decimal>, ArithError>)
    ensures
        r == vwap_of(levels@, qty),
{
    if !qty.is_positive() {
        return Ok(None);
    }
    let mut left = qty;
    let mut paid = Decimal::zero();
    let mut i: usize = 0;
    let ghost goal = walked(levels@, qty, lit(0, 0));
    proof {
        assert(levels@.skip(0) =~= levels@);
    }
    while i < levels.len()
        invariant_except_break
            i <= levels@.len(),
            goal == walked(levels@.skip(i as int), left, paid),
        invariant
            goal == walked(levels@, qty, lit(0, 0)),
            qty.units() > 0,
        ensures
            goal == Ok::<(Decimal, Decimal), ArithError>((left, paid)),
        decreases levels.len() - i,
    {
        let (px, sz) = levels[i];
        proof {
            assert(levels@.skip(i as int).drop_first() =~= levels@.skip(i + 1));
        }
        if px.is_positive() && sz.is_positive() {
            let take = left.min(sz);
            paid = paid.plus(take.times(px)?)?;
            left = left.minus(take)?;
            if !left.is_positive() {
                break;
            }
        }
        i = i + 1;
    }
    if left.is_positive() {
        return Ok(None);
    }
    Ok(Some(paid.over(qty)?))
}

fn slip_from_best(vwap: Decimal, best: Decimal) -> (r: Result<Option<Decimal>, ArithError>)
    ensures
        r == (if best.units() <= 0 {
            Ok(None)
        } else {
            some_calc(pct_over(vwap, best))
        }),
{
    if !best.is_positive() {
        return Ok(None);
    }
    let gap = vwap.minus(best)?;
    let part = gap.over(best)?;
    Ok(Some(part.times(Decimal::from_int(100))?))
}

// ---------------------------------------------------------------------------
// Laws
// ---------------------------------------------------------------------------

/// A venue's own spread, times the ask, is a hundred times the distance of the two prices:
/// above zero where the ask is above the bid.
pub proof fn law_own_spread_is_the_distance_in_percent_of_the_ask(b: Bbo)
    requires
        b.ask.units() > 0,
        subtracts_exactly(Ok(b.ask), Ok(b.bid)),
        percents_exactly(diff(Ok(b.ask), Ok(b.bid)), Ok(b.ask)),
    ensures
        b.own_spread() matches Ok(Some(s)) && s.units() * b.ask.units() == 100 * (b.ask.units()
            - b.bid.units()) * whole() && (b.sound() ==> s.units() > 0),
{
    lemma_percent(diff(Ok(b.ask), Ok(b.bid)), Ok(b.ask));
}

/// What stands at the levels is the sum of their quantities.
pub proof fn law_depth_is_the_sum(levels: Seq<Level>, acc: Calc)
    requires
        acc is Ok,
        deepens_exactly(levels, acc),
    ensures
        depth(levels, acc) is Ok,
        value(depth(levels, acc)) == value(acc) + units_at(levels),
    decreases levels.len(),
{
    if levels.len() > 0 {
        law_depth_is_the_sum(levels.drop_first(), sum(acc, Ok(levels[0].1)));
    }
}

/// The quantities of the levels together.
pub open spec fn units_at(levels: Seq<Level>) -> int
    decreases levels.len(),
{
    if levels.len() == 0 {
        0
    } else {
        levels[0].1.units() + units_at(levels.drop_first())
    }
}

/// Nothing is rounded away while the quantities are added up.
pub open spec fn deepens_exactly(levels: Seq<Level>, acc: Calc) -> bool
    decreases levels.len(),
{
    levels.len() == 0 || (adds_exactly(acc, Ok(levels[0].1)) && deepens_exactly(
        levels.drop_first(),
        sum(acc, Ok(levels[0].1)),
    ))
}

/// A level has a price and a quantity.
pub open spec fn is_quote(l: Level) -> bool {
    l.0.units() > 0 && l.1.units() > 0
}

/// What can be taken out of the levels.
pub open spec fn units_quoted(levels: Seq<Level>) -> int
    decreases levels.len(),
{
    if levels.len() == 0 {
        0
    } else {
        units_quoted(levels.drop_first()) + (if is_quote(levels[0]) {
            levels[0].1.units()
        } else {
            0
        })
    }
}

/// What taking `left` out of the levels costs, the first level first: price times quantity.
pub open spec fn cost_of(levels: Seq<Level>, left: int) -> int
    decreases levels.len(),
{
    if levels.len() == 0 || left <= 0 {
        0
    } else if !is_quote(levels[0]) {
        cost_of(levels.drop_first(), left)
    } else if left <= levels[0].1.units() {
        levels[0].0.units() * left
    } else {
        levels[0].0.units() * levels[0].1.units() + cost_of(
            levels.drop_first(),
            left - levels[0].1.units(),
        )
    }
}

/// Nothing is rounded away while the levels are walked.
pub open spec fn walks_exactly(levels: Seq<Level>, left: Decimal, paid: Decimal) -> bool
    decreases levels.len(),
{
    levels.len() == 0 || (if !is_quote(levels[0]) {
        walks_exactly(levels.drop_first(), left, paid)
    } else {
        let take = dmin(left, levels[0].1);
        let cost = prod(Ok(take), Ok(levels[0].0));
        &&& multiplies_exactly(Ok(take), Ok(levels[0].0))
        &&& adds_exactly(Ok(paid), cost)
        &&& subtracts_exactly(Ok(left), Ok(take))
        &&& left.units() > levels[0].1.units() ==> walks_exactly(
            levels.drop_first(),
            diff(Ok(left), Ok(take))->Ok_0,
            sum(Ok(paid), cost)->Ok_0,
        )
    })
}

proof fn lemma_units_quoted(levels: Seq<Level>)
    ensures
        units_quoted(levels) >= 0,
    decreases levels.len(),
{
    if levels.len() > 0 {
        lemma_units_quoted(levels.drop_first());
    }
}

proof fn lemma_walked(levels: Seq<Level>, left: Decimal, paid: Decimal)
    requires
        left.units() > 0,
        walks_exactly(levels, left, paid),
    ensures
        walked(levels, left, paid) is Ok,
        ({
            let (l, p) = walked(levels, left, paid)->Ok_0;
            &&& l.units() > 0 <==> units_quoted(levels) < left.units()
            &&& units_quoted(levels) >= left.units() ==> p.units() * whole() == paid.units()
                * whole() + cost_of(levels, left.units())
        }),
    decreases levels.len(),
{
    if levels.len() > 0 {
        lemma_units_quoted(levels.drop_first());
        if !is_quote(levels[0]) {
            lemma_walked(levels.drop_first(), left, paid);
        } else {
            let take = dmin(left, levels[0].1);
            let cost = prod(Ok(take), Ok(levels[0].0));
            let px = levels[0].0.units();
            let t = take.units();
            let w = whole();
            let a = paid.units();
            let c = value(cost);
            assert((a + c) * w == a * w + c * w) by (nonlinear_arith);
            assert(t * px == px * t) by (nonlinear_arith);
            if left.units() > levels[0].1.units() {
                lemma_walked(
                    levels.drop_first(),
                    diff(Ok(left), Ok(take))->Ok_0,
                    sum(Ok(paid), cost)->Ok_0,
                );
            }
        }
    }
}

/// Taking `qty` out of a book has a price exactly where its levels hold `qty`; that price
/// times `qty` is what walking the levels costs, the best first.
pub proof fn law_the_average_price_is_what_walking_costs(levels: Seq<Level>, qty: Decimal)
    requires
        qty.units() > 0,
        walks_exactly(levels, qty, lit(0, 0)),
        units_quoted(levels) >= qty.units() ==> divides_exactly(
            Ok(walked(levels, qty, lit(0, 0))->Ok_0.1),
            Ok(qty),
        ),
    ensures
        vwap_of(levels, qty) is Ok,
        vwap_of(levels, qty)->Ok_0 is Some <==> units_quoted(levels) >= qty.units(),
        vwap_of(levels, qty)->Ok_0 matches Some(v) ==> v.units() * qty.units() == cost_of(
            levels,
            qty.units(),
        ),
{
    broadcast use lemma_lit, lemma_sign;

    lemma_walked(levels, qty, lit(0, 0));
    assert(0 * whole() == 0);
}

/// What buying loses to depth, times the best ask, is a hundred times by how much the average
/// price is above it; what selling loses, times the best bid, is a hundred times by how much
/// the average price is below it.
pub proof fn law_slip_is_measured_from_the_best_price(b: Bbo, qty: Decimal)
    ensures
        vwap_of(b.asks@, qty) matches Ok(Some(v)) ==> b.ask.units() > 0 && subtracts_exactly(
            Ok(v),
            Ok(b.ask),
        ) && percents_exactly(diff(Ok(v), Ok(b.ask)), Ok(b.ask)) ==> (b.buy_slip(qty) matches Ok(
            Some(s),
        ) && s.units() * b.ask.units() == 100 * (v.units() - b.ask.units()) * whole()),
        vwap_of(b.bids@, qty) matches Ok(Some(v)) ==> b.bid.units() > 0 && subtracts_exactly(
            Ok(b.bid),
            Ok(v),
        ) && percents_exactly(diff(Ok(b.bid), Ok(v)), Ok(b.bid)) ==> (b.sell_slip(qty) matches Ok(
            Some(s),
        ) && s.units() * b.bid.units() == 100 * (b.bid.units() - v.units()) * whole()),
        vwap_of(b.asks@, qty) matches Ok(None) ==> b.buy_slip(qty) matches Ok(None),
        vwap_of(b.bids@, qty) matches Ok(None) ==> b.sell_slip(qty) matches Ok(None),
{
    if let Ok(Some(v)) = vwap_of(b.asks@, qty) {
        if percents_exactly(diff(Ok(v), Ok(b.ask)), Ok(b.ask)) {
            lemma_percent(diff(Ok(v), Ok(b.ask)), Ok(b.ask));
        }
    }
    if let Ok(Some(v)) = vwap_of(b.bids@, qty) {
        if percents_exactly(diff(Ok(b.bid), Ok(v)), Ok(b.bid)) {
            lemma_percent(diff(Ok(b.bid), Ok(v)), Ok(b.bid));
        }
    }
}

} // verus!
