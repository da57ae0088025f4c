//! The two lines next to the present step: one further out, one back in.

use crate::decimal::{
    adds_exactly, adds_up, dabs, diff, divides_exactly, dmin, dneg, dround, finer, fits,
    lemma_difference_value, lemma_lit, lemma_multiple_value, lemma_rounded_whole, lemma_sign,
    lemma_size, lemma_sum_value, lemma_turned, lemma_whole, lemma_whole_number,
    lemma_whole_number_of, lit, magnitude, multiplies, multiplies_exactly, on_scale, pow10, prod,
    quot, subtracts_exactly, sum, sums_exactly, takes_away, turned, value, whole, ArithError, Calc,
    Decimal,
};
use crate::domain::symbol::VenueId;
use crate::text::joined;
use vstd::prelude::*;

verus! {

#[derive(Clone, Copy, Debug, PartialEq, Eq, Structural)]
pub enum QuoteSide {
    /// The step grows: sell left, buy right.
    Plus,
    /// The step shrinks: buy left, sell right.
    Minus,
}

impl QuoteSide {
    pub open spec fn word(self) -> Seq<char> {
        match self {
            QuoteSide::Plus => "plus"@,
            QuoteSide::Minus => "minus"@,
        }
    }

    pub open spec fn other(self) -> QuoteSide {
        match self {
            QuoteSide::Plus => QuoteSide::Minus,
            QuoteSide::Minus => QuoteSide::Plus,
        }
    }

    pub fn as_str(self) -> (r: &'static str)
        ensures
            r@ == self.word(),
    {
        match self {
            QuoteSide::Plus => "plus",
            QuoteSide::Minus => "minus",
        }
    }

    pub fn opposite(self) -> (r: QuoteSide)
        ensures
            r == self.other(),
    {
        match self {
            QuoteSide::Plus => QuoteSide::Minus,
            QuoteSide::Minus => QuoteSide::Plus,
        }
    }
}

/// An order that would carry the step to a neighbour.
#[derive(Debug)]
pub struct AdjacentQuote {
    pub side: QuoteSide,
    pub target_spread: Decimal,
    pub is_open: bool,
    pub buy: VenueId,
    pub sell: VenueId,
    pub qty: Decimal,
    pub grid_to: i32,
}

/// What is closed on the way to `next`: all that is held on the last step, one
/// step's quantity before.
pub open spec fn closing_qty(next: int, held_qty: Decimal, one: Decimal) -> Decimal {
    if next == 0 {
        held_qty
    } else {
        dmin(one, held_qty)
    }
}

pub fn close_qty(next: i32, held_qty: Decimal, one: Decimal) -> (r: Decimal)
    ensures
        r == closing_qty(next as int, held_qty, one),
{
    if next == 0 {
        held_qty
    } else {
        one.min(held_qty)
    }
}

/// The largest step, at least one.
pub open spec fn step_cap(max_step: int) -> int {
    if max_step < 1 {
        1
    } else {
        max_step
    }
}

/// The spread on the line `m` steps off the mean.
pub open spec fn line(mu: Decimal, m: int, delta: Decimal) -> Calc {
    sum(Ok(mu), prod(Ok(lit(m, 0)), Ok(delta)))
}

/// A line that is not shifted: as it is, but that zero has no fractional digits.
pub open spec fn unshifted(base: Calc) -> Calc {
    match base {
        Ok(d) => if d.mant() == 0 {
            Ok(lit(0, 0))
        } else {
            Ok(d)
        },
        Err(e) => Err(e),
    }
}

/// The spread at which the step goes down by one: a hysteresis shifts the line toward
/// the present step where the step is above zero, and away from it below zero.
pub open spec fn minus_line(k: int, mu: Decimal, delta: Decimal, hysteresis: Decimal) -> Calc {
    if k == 0 {
        diff(Ok(mu), Ok(delta))
    } else if hysteresis.units() <= 0 {
        unshifted(line(mu, k - 1, delta))
    } else if k > 0 {
        sum(line(mu, k - 1, delta), prod(Ok(hysteresis), Ok(delta)))
    } else {
        diff(line(mu, k - 1, delta), prod(Ok(hysteresis), Ok(delta)))
    }
}

/// The order one step up.
pub open spec fn plus_quote(
    k: int,
    target: Decimal,
    left: VenueId,
    right: VenueId,
    base_qty: Decimal,
    held_qty: Decimal,
) -> AdjacentQuote {
    AdjacentQuote {
        side: QuoteSide::Plus,
        target_spread: target,
        is_open: k >= 0,
        buy: right,
        sell: left,
        qty: if k >= 0 {
            base_qty
        } else {
            closing_qty(k + 1, held_qty, base_qty)
        },
        grid_to: (k + 1) as i32,
    }
}

/// The order one step down.
pub open spec fn minus_quote(
    k: int,
    target: Decimal,
    left: VenueId,
    right: VenueId,
    base_qty: Decimal,
    held_qty: Decimal,
) -> AdjacentQuote {
    AdjacentQuote {
        side: QuoteSide::Minus,
        target_spread: target,
        is_open: k <= 0,
        buy: left,
        sell: right,
        qty: if k <= 0 {
            base_qty
        } else {
            closing_qty(k - 1, held_qty, base_qty)
        },
        grid_to: (k - 1) as i32,
    }
}

/// The list of an order that has a quantity.
pub open spec fn if_any(q: AdjacentQuote) -> Seq<AdjacentQuote> {
    if q.qty.units() > 0 {
        seq![q]
    } else {
        Seq::empty()
    }
}

/// The orders up, where the step may still grow.
pub open spec fn quotes_up(
    k: int,
    mu: Decimal,
    delta: Decimal,
    max_step: int,
    left: VenueId,
    right: VenueId,
    base_qty: Decimal,
    held_qty: Decimal,
) -> Result<Seq<AdjacentQuote>, ArithError> {
    if k < step_cap(max_step) {
        match line(mu, k + 1, delta) {
            Ok(t) => Ok(if_any(plus_quote(k, t, left, right, base_qty, held_qty))),
            Err(e) => Err(e),
        }
    } else {
        Ok(Seq::empty())
    }
}

/// The orders down, where the step may still shrink.
pub open spec fn quotes_down(
    k: int,
    mu: Decimal,
    delta: Decimal,
    max_step: int,
    hysteresis: Decimal,
    left: VenueId,
    right: VenueId,
    base_qty: Decimal,
    held_qty: Decimal,
) -> Result<Seq<AdjacentQuote>, ArithError> {
    if k > -step_cap(max_step) {
        match minus_line(k, mu, delta, hysteresis) {
            Ok(t) => Ok(if_any(minus_quote(k, t, left, right, base_qty, held_qty))),
            Err(e) => Err(e),
        }
    } else {
        Ok(Seq::empty())
    }
}

/// The orders next to the step `k`, those up first.
pub open spec fn quotes_next_to(
    k: int,
    mu: Decimal,
    delta: Decimal,
    max_step: int,
    hysteresis: Decimal,
    left: VenueId,
    right: VenueId,
    base_qty: Decimal,
    held_qty: Decimal,
) -> Result<Seq<AdjacentQuote>, ArithError> {
    if delta.units() <= 0 || base_qty.units() <= 0 {
        Ok(Seq::empty())
    } else {
        match (
            quotes_up(k, mu, delta, max_step, left, right, base_qty, held_qty),
            quotes_down(k, mu, delta, max_step, hysteresis, left, right, base_qty, held_qty),
        ) {
            (Ok(up), Ok(down)) => Ok(up + down),
            _ => Err(ArithError),
        }
    }
}

/// An order with the value of its line.
pub struct QuoteModel {
    pub side: QuoteSide,
    /// The spread of the line in units of `10^-28`.
    pub target: int,
    pub is_open: bool,
    pub buy: VenueId,
    pub sell: VenueId,
    pub qty: Decimal,
    pub grid_to: int,
}

pub open spec fn quote_model(q: AdjacentQuote) -> QuoteModel {
    QuoteModel {
        side: q.side,
        target: q.target_spread.units(),
        is_open: q.is_open,
        buy: q.buy,
        sell: q.sell,
        qty: q.qty,
        grid_to: q.grid_to as int,
    }
}

pub open spec fn quote_models(s: Seq<AdjacentQuote>) -> Seq<QuoteModel> {
    s.map_values(|q: AdjacentQuote| quote_model(q))
}

/// The line `m` steps off the mean is computed without rounding.
pub open spec fn line_is_exact(mu: Decimal, m: int, delta: Decimal) -> bool {
    fits(m * delta.mant()) && sums_exactly(mu, lit(m * delta.mant(), delta.scl()))
}

/// Both lines next to the step `k` are computed without rounding.
pub open spec fn lines_are_exact(k: int, mu: Decimal, delta: Decimal) -> bool {
    line_is_exact(mu, k - 1, delta) && line_is_exact(mu, k + 1, delta)
}

/// The quantity of an order from `k` to `to`.
pub open spec fn step_qty(k: int, to: int, base_qty: Decimal, held_qty: Decimal) -> Decimal {
    if (to > k && k >= 0) || (to < k && k <= 0) {
        base_qty
    } else {
        closing_qty(to, held_qty, base_qty)
    }
}

/// The order from `k` to its neighbour `to`, its line taken `mu + to * delta` exactly.
pub open spec fn step_quote(
    k: int,
    to: int,
    mu: int,
    delta: int,
    left: VenueId,
    right: VenueId,
    base_qty: Decimal,
    held_qty: Decimal,
) -> QuoteModel {
    QuoteModel {
        side: if to > k {
            QuoteSide::Plus
        } else {
            QuoteSide::Minus
        },
        target: mu + to * delta,
        is_open: (to > k && k >= 0) || (to < k && k <= 0),
        buy: if to > k {
            right
        } else {
            left
        },
        sell: if to > k {
            left
        } else {
            right
        },
        qty: step_qty(k, to, base_qty, held_qty),
        grid_to: to,
    }
}

/// The order from `k` to `to`, where the cap and the quantity allow it.
pub open spec fn quotes_to(
    k: int,
    to: int,
    mu: int,
    delta: int,
    max_step: int,
    left: VenueId,
    right: VenueId,
    base_qty: Decimal,
    held_qty: Decimal,
) -> Seq<QuoteModel> {
    if -step_cap(max_step) <= to <= step_cap(max_step) && step_qty(
        k,
        to,
        base_qty,
        held_qty,
    ).units() > 0 {
        seq![step_quote(k, to, mu, delta, left, right, base_qty, held_qty)]
    } else {
        Seq::empty()
    }
}

/// The orders next to the step `k` with their lines taken exactly, `mu` and `delta` being
/// values in units of `10^-28`.
pub open spec fn exact_quotes(
    k: int,
    mu: int,
    delta: int,
    max_step: int,
    left: VenueId,
    right: VenueId,
    base_qty: Decimal,
    held_qty: Decimal,
) -> Seq<QuoteModel> {
    quotes_to(k, k + 1, mu, delta, max_step, left, right, base_qty, held_qty) + quotes_to(
        k,
        k - 1,
        mu,
        delta,
        max_step,
        left,
        right,
        base_qty,
        held_qty,
    )
}

/// An order seen with the venues swapped.
pub open spec fn mirrored(q: QuoteModel) -> QuoteModel {
    QuoteModel { side: q.side.other(), target: -q.target, grid_to: -q.grid_to, ..q }
}

/// With the step, the mean and the venues turned round the orders are the same, seen from
/// the other side and in the other order.
pub proof fn law_quotes_mirror(
    k: int,
    mu: int,
    delta: int,
    max_step: int,
    left: VenueId,
    right: VenueId,
    base_qty: Decimal,
    held_qty: Decimal,
)
    ensures
        exact_quotes(-k, -mu, delta, max_step, right, left, base_qty, held_qty)
            == exact_quotes(k, mu, delta, max_step, left, right, base_qty, held_qty).reverse().map_values(
            |q: QuoteModel| mirrored(q),
        ),
{
    let a = exact_quotes(-k, -mu, delta, max_step, right, left, base_qty, held_qty);
    let b = exact_quotes(k, mu, delta, max_step, left, right, base_qty, held_qty);
    assert(-mu + (-(k + 1)) * delta == -(mu + (k + 1) * delta)) by (nonlinear_arith);
    assert(-mu + (-(k - 1)) * delta == -(mu + (k - 1) * delta)) by (nonlinear_arith);
    assert(-k - 1 == -(k + 1));
    assert(-k + 1 == -(k - 1));
    assert(a =~= b.reverse().map_values(|q: QuoteModel| mirrored(q)));
}

proof fn lemma_line_mirrors(mu: Decimal, m: int, delta: Decimal)
    requires
        mu.valid(),
        delta.valid(),
    ensures
        line_is_exact(dneg(mu), -m, delta) == line_is_exact(mu, m, delta),
{
    broadcast use lemma_lit;

    let d = delta.mant();
    assert((-m) * d == -(m * d)) by (nonlinear_arith);
    if fits(m * d) {
        let a = lit(m * d, delta.scl());
        let b = lit(-(m * d), delta.scl());
        let f = finer(mu, a);
        assert(finer(dneg(mu), b) == f);
        let p = pow10((f - mu.scl()) as nat);
        let q = pow10((f - a.scl()) as nat);
        let x = mu.mant();
        let y = a.mant();
        assert((-x) * p == -(x * p)) by (nonlinear_arith);
        assert((-y) * q == -(y * q)) by (nonlinear_arith);
        assert(on_scale(dneg(mu), f) == -on_scale(mu, f));
        assert(on_scale(b, f) == -on_scale(a, f));
    }
}

/// Where lines are exact, their mirror images are, and the mirrored mean has the mean's
/// value with the other sign.
pub proof fn law_exact_lines_mirror(k: int, mu: Decimal, delta: Decimal)
    requires
        mu.valid(),
        delta.valid(),
    ensures
        lines_are_exact(-k, dneg(mu), delta) == lines_are_exact(k, mu, delta),
        dneg(mu).units() == -mu.units(),
{
    broadcast use lemma_lit;

    lemma_line_mirrors(mu, k - 1, delta);
    lemma_line_mirrors(mu, k + 1, delta);
    assert(-(k - 1) == -k + 1);
    assert(-(k + 1) == -k - 1);
    lemma_multiple_value(mu, -1, dneg(mu));
}

/// Two computed numbers have the same value with different signs, or neither could be
/// computed.
pub open spec fn opposite_values(a: Calc, b: Calc) -> bool {
    match (a, b) {
        (Ok(x), Ok(y)) => y.units() == -x.units(),
        (Err(_), Err(_)) => true,
        _ => false,
    }
}

/// `b` are the orders `a`, seen from the other side and in the other order.
pub open spec fn mirror_images(
    a: Result<Seq<AdjacentQuote>, ArithError>,
    b: Result<Seq<AdjacentQuote>, ArithError>,
) -> bool {
    match (a, b) {
        (Ok(x), Ok(y)) => quote_models(y) == quote_models(x).reverse().map_values(
            |q: QuoteModel| mirrored(q),
        ),
        (Err(_), Err(_)) => true,
        _ => false,
    }
}

proof fn lemma_quotes_mirror(
    k: int,
    mu: Decimal,
    delta: Decimal,
    max_step: int,
    hysteresis: Decimal,
    left: VenueId,
    right: VenueId,
    base_qty: Decimal,
    held_qty: Decimal,
)
    requires
        -step_cap(max_step) <= k <= step_cap(max_step) <= i32::MAX,
        k < step_cap(max_step) ==> opposite_values(
            line(mu, k + 1, delta),
            minus_line(-k, dneg(mu), delta, hysteresis),
        ),
        k > -step_cap(max_step) ==> (k < step_cap(max_step) && line(mu, k + 1, delta) is Err)
            || opposite_values(
            minus_line(k, mu, delta, hysteresis),
            line(dneg(mu), -k + 1, delta),
        ),
    ensures
        mirror_images(
            quotes_next_to(
                k,
                mu,
                delta,
                max_step,
                hysteresis,
                left,
                right,
                base_qty,
                held_qty,
            ),
            quotes_next_to(
                -k,
                dneg(mu),
                delta,
                max_step,
                hysteresis,
                right,
                left,
                base_qty,
                held_qty,
            ),
        ),
{
    let a = quotes_next_to(k, mu, delta, max_step, hysteresis, left, right, base_qty, held_qty);
    let b = quotes_next_to(
        -k,
        dneg(mu),
        delta,
        max_step,
        hysteresis,
        right,
        left,
        base_qty,
        held_qty,
    );
    if a is Ok && b is Ok {
        assert(quote_models(b->Ok_0) =~= quote_models(a->Ok_0).reverse().map_values(
            |q: QuoteModel| mirrored(q),
        ));
    }
}

fn line_at(mu: Decimal, m: i32, delta: Decimal) -> (r: Calc)
    ensures
        r == line(mu, m as int, delta),
        line_is_exact(mu, m as int, delta) ==> r is Ok && r->Ok_0.units() == mu.units() + m
            * delta.units(),
        r matches Ok(d) ==> d.valid(),
        line(dneg(mu), -(m as int), delta) == turned(r),
        m == 1 && delta.mant() > 0 ==> {
            &&& prod(Ok(lit(1, 0)), Ok(delta)) == Ok::<Decimal, ArithError>(delta)
            &&& diff(Ok(dneg(mu)), Ok(delta)) == turned(r)
        },
{
    broadcast use lemma_lit, lemma_sign;

    let steps = Decimal::from_int(m as i64);
    let p = steps.times(delta);
    proof {
        reveal(multiplies);
        lemma_turned(delta);
        assert(dneg(steps) == lit(-(m as int), 0));
        let x = lit(m * delta.mant(), delta.scl());
        if m == 1 {
            assert(m * delta.mant() == delta.mant()) by (nonlinear_arith)
                requires
                    m == 1,
            ;
        }
        if line_is_exact(mu, m as int, delta) {
            if m == 0 || delta.mant() == 0 {
                assert(m * delta.mant() == 0) by (nonlinear_arith)
                    requires
                        m == 0 || delta.mant() == 0,
                ;
                assert(m * delta.units() == 0) by (nonlinear_arith)
                    requires
                        m == 0 || delta.units() == 0,
                ;
            } else {
                lemma_multiple_value(delta, m as int, x);
            }
        }
    }
    let p = p?;
    let r = mu.plus(p);
    proof {
        reveal(adds_up);
        if line_is_exact(mu, m as int, delta) {
            lemma_sum_value(mu, p, r);
        }
    }
    r
}

fn line_below(k: i32, mu: Decimal, delta: Decimal, hysteresis: Decimal) -> (r: Calc)
    requires
        k > i32::MIN,
    ensures
        r == minus_line(k as int, mu, delta, hysteresis),
        hysteresis.mant() == 0 && line_is_exact(mu, k - 1, delta) ==> r is Ok
            && r->Ok_0.units() == mu.units() + (k - 1) * delta.units(),
        hysteresis.units() <= 0 && k != 0 ==> opposite_values(r, line(dneg(mu), -k + 1, delta)),
        k == 0 ==> opposite_values(r, sum(Ok(dneg(mu)), Ok(delta))),
{
    broadcast use lemma_lit, lemma_sign;

    let ghost exact = hysteresis.mant() == 0 && line_is_exact(mu, k - 1, delta);
    if k == 0 {
        let r = mu.minus(delta);
        proof {
            reveal(takes_away);
            if exact {
                let d = delta.mant();
                assert((k - 1) * d == -d) by (nonlinear_arith)
                    requires
                        k == 0,
                ;
                let u = delta.units();
                assert((k - 1) * u == -u) by (nonlinear_arith)
                    requires
                        k == 0,
                ;
                lemma_difference_value(mu, delta, r);
            }
            if let Ok(x) = r {
                lemma_turned(x);
            }
        }
        return r;
    }
    let base = line_at(mu, k - 1, delta)?;
    proof {
        lemma_turned(base);
    }
    if !hysteresis.is_positive() {
        return if base.is_zero() {
            Ok(Decimal::zero())
        } else {
            Ok(base)
        };
    }
    let h = hysteresis.times(delta)?;
    if k > 0 {
        base.plus(h)
    } else {
        base.minus(h)
    }
}

/// At most two orders stand next to a step. Without a hysteresis, turning the step, the
/// mean and the venues round gives the same orders, seen from the other side.
pub fn adjacent_quotes(
    k: i32,
    mu: Decimal,
    delta: Decimal,
    max_step: i32,
    hysteresis: Decimal,
    left: &VenueId,
    right: &VenueId,
    base_qty: Decimal,
    held_qty: Decimal,
) -> (r: Result<Vec<AdjacentQuote>, ArithError>)
    ensures
        match r {
            Ok(v) => quotes_next_to(
                k as int,
                mu,
                delta,
                max_step as int,
                hysteresis,
                *left,
                *right,
                base_qty,
                held_qty,
            ) == Ok::<Seq<AdjacentQuote>, ArithError>(v@),
            Err(e) => quotes_next_to(
                k as int,
                mu,
                delta,
                max_step as int,
                hysteresis,
                *left,
                *right,
                base_qty,
                held_qty,
            ) is Err,
        },
        delta.mant() > 0 && base_qty.mant() > 0 && hysteresis.mant() == 0 && -step_cap(
            max_step as int,
        ) <= k <= step_cap(max_step as int) && lines_are_exact(k as int, mu, delta) ==> (
        r matches Ok(v) && quote_models(v@) == exact_quotes(
            k as int,
            mu.units(),
            delta.units(),
            max_step as int,
            *left,
            *right,
            base_qty,
            held_qty,
        )),
        hysteresis.units() <= 0 && -step_cap(max_step as int) <= k <= step_cap(max_step as int)
            ==> mirror_images(
            quotes_next_to(
                k as int,
                mu,
                delta,
                max_step as int,
                hysteresis,
                *left,
                *right,
                base_qty,
                held_qty,
            ),
            quotes_next_to(
                -(k as int),
                dneg(mu),
                delta,
                max_step as int,
                hysteresis,
                *right,
                *left,
                base_qty,
                held_qty,
            ),
        ),
{
    broadcast use lemma_lit, lemma_sign;

    let ghost symmetric = hysteresis.units() <= 0 && -step_cap(max_step as int) <= k <= step_cap(
        max_step as int,
    );
    let mut out: Vec<AdjacentQuote> = Vec::new();
    if !delta.is_positive() || !base_qty.is_positive() {
        proof {
            assert(quote_models(out@) =~= quote_models(out@).reverse().map_values(
                |q: QuoteModel| mirrored(q),
            ));
        }
        return Ok(out);
    }
    let n: i32 = if max_step < 1 {
        1
    } else {
        max_step
    };
    if k < n {
        let m: i32 = k + 1;
        let target = line_at(mu, m, delta);
        proof {
            if let Ok(x) = target {
                lemma_turned(x);
            }
            if symmetric && target is Err {
                lemma_quotes_mirror(
                    k as int,
                    mu,
                    delta,
                    max_step as int,
                    hysteresis,
                    *left,
                    *right,
                    base_qty,
                    held_qty,
                );
            }
        }
        let target = target?;
        let qty = if k >= 0 {
            base_qty
        } else {
            close_qty(m, held_qty, base_qty)
        };
        if qty.is_positive() {
            out.push(
                AdjacentQuote {
                    side: QuoteSide::Plus,
                    target_spread: target,
                    is_open: k >= 0,
                    buy: right.clone(),
                    sell: left.clone(),
                    qty,
                    grid_to: m,
                },
            );
        }
    }
    let ghost up = out@;
    proof {
        assert(quotes_up(
            k as int,
            mu,
            delta,
            max_step as int,
            *left,
            *right,
            base_qty,
            held_qty,
        ) matches Ok(s) && s =~= up);
        assert(up + Seq::<AdjacentQuote>::empty() =~= up);
    }
    if k > -n {
        let m: i32 = k - 1;
        let target = line_below(k, mu, delta, hysteresis);
        proof {
            if symmetric {
                lemma_quotes_mirror(
                    k as int,
                    mu,
                    delta,
                    max_step as int,
                    hysteresis,
                    *left,
                    *right,
                    base_qty,
                    held_qty,
                );
            }
        }
        let target = target?;
        let qty = if k <= 0 {
            base_qty
        } else {
            close_qty(m, held_qty, base_qty)
        };
        if qty.is_positive() {
            out.push(
                AdjacentQuote {
                    side: QuoteSide::Minus,
                    target_spread: target,
                    is_open: k <= 0,
                    buy: left.clone(),
                    sell: right.clone(),
                    qty,
                    grid_to: m,
                },
            );
            proof {
                assert(out@ =~= up + seq![out@.last()]);
            }
        }
    }
    proof {
        if hysteresis.mant() == 0 && -step_cap(max_step as int) <= k <= step_cap(max_step as int)
            && lines_are_exact(k as int, mu, delta) {
            let all = exact_quotes(
                k as int,
                mu.units(),
                delta.units(),
                max_step as int,
                *left,
                *right,
                base_qty,
                held_qty,
            );
            assert(quote_models(out@) =~= all);
        }
        if symmetric && k <= -n {
            lemma_quotes_mirror(
                k as int,
                mu,
                delta,
                max_step as int,
                hysteresis,
                *left,
                *right,
                base_qty,
                held_qty,
            );
        }
    }
    Ok(out)
}

/// Every order next to a step within the cap leads to a neighbour within the
/// cap, opens only away from zero, and never crosses zero.
pub proof fn law_quotes_step_by_one(
    k: int,
    mu: Decimal,
    delta: Decimal,
    max_step: int,
    hysteresis: Decimal,
    left: VenueId,
    right: VenueId,
    base_qty: Decimal,
    held_qty: Decimal,
)
    requires
        -step_cap(max_step) <= k <= step_cap(max_step),
        max_step <= i32::MAX,
    ensures
        quotes_next_to(k, mu, delta, max_step, hysteresis, left, right, base_qty, held_qty)
            matches Ok(qs) ==> qs.len() <= 2 && forall|i: int|
            0 <= i < qs.len() ==> {
                let q = #[trigger] qs[i];
                &&& q.qty.units() > 0
                &&& q.grid_to == k + 1 || q.grid_to == k - 1
                &&& -step_cap(max_step) <= q.grid_to <= step_cap(max_step)
                &&& (q.side == QuoteSide::Plus <==> q.grid_to == k + 1)
                &&& (q.is_open <==> (q.grid_to > k && k >= 0) || (q.grid_to < k && k <= 0))
                &&& (k > 0 ==> q.grid_to >= 0)
                &&& (k < 0 ==> q.grid_to <= 0)
            },
{
}

/// At the cap only the way back in is quoted.
pub proof fn law_cap_only_reduces(
    mu: Decimal,
    delta: Decimal,
    max_step: int,
    hysteresis: Decimal,
    left: VenueId,
    right: VenueId,
    base_qty: Decimal,
    held_qty: Decimal,
)
    requires
        max_step <= i32::MAX,
    ensures
        quotes_next_to(
            step_cap(max_step),
            mu,
            delta,
            max_step,
            hysteresis,
            left,
            right,
            base_qty,
            held_qty,
        ) matches Ok(qs) ==> qs.len() <= 1 && forall|i: int|
            0 <= i < qs.len() ==> !(#[trigger] qs[i]).is_open && qs[i].side == QuoteSide::Minus,
        quotes_next_to(
            -step_cap(max_step),
            mu,
            delta,
            max_step,
            hysteresis,
            left,
            right,
            base_qty,
            held_qty,
        ) matches Ok(qs) ==> qs.len() <= 1 && forall|i: int|
            0 <= i < qs.len() ==> !(#[trigger] qs[i]).is_open && qs[i].side == QuoteSide::Plus,
{
}

/// The spread that can be traded is at least `gap` short of the line.
pub open spec fn far_enough(target: Decimal, s_exec: Decimal, plus: bool, gap: Decimal) -> Result<
    bool,
    ArithError,
> {
    if gap.units() <= 0 {
        Ok(true)
    } else if plus {
        match diff(Ok(target), Ok(gap)) {
            Ok(x) => Ok(s_exec.units() <= x.units()),
            Err(e) => Err(e),
        }
    } else {
        match sum(Ok(target), Ok(gap)) {
            Ok(x) => Ok(s_exec.units() >= x.units()),
            Err(e) => Err(e),
        }
    }
}

pub fn add_quote_far_enough(target: Decimal, s_exec: Decimal, plus: bool, gap: Decimal) -> (r:
    Result<bool, ArithError>)
    ensures
        r == far_enough(target, s_exec, plus, gap),
{
    if !gap.is_positive() {
        return Ok(true);
    }
    if plus {
        Ok(s_exec <= target.minus(gap)?)
    } else {
        Ok(s_exec >= target.plus(gap)?)
    }
}

/// A price brought to the nearest tick.
pub open spec fn on_tick(px: Decimal, tick: Decimal) -> Calc {
    if tick.units() <= 0 {
        Ok(px)
    } else {
        match quot(Ok(px), Ok(tick)) {
            Ok(q) => prod(Ok(dround(q, 0)), Ok(tick)),
            Err(e) => Err(e),
        }
    }
}

fn round_to_tick(px: Decimal, tick: Decimal) -> (r: Calc)
    ensures
        r == on_tick(px, tick),
{
    if !tick.is_positive() {
        return Ok(px);
    }
    px.over(tick)?.round().times(tick)
}

/// Where the first leg must be filled for the spread to come out at `target`,
/// given the other venue's book.
pub open spec fn implied_price(
    target: Decimal,
    first_is_left: bool,
    first_is_buy: bool,
    left_bid: Decimal,
    left_ask: Decimal,
    right_bid: Decimal,
    right_ask: Decimal,
    avg_mid: Decimal,
) -> Calc {
    let offset = prod(quot(Ok(target), Ok(lit(100, 0))), Ok(avg_mid));
    if first_is_left {
        if first_is_buy {
            sum(Ok(right_bid), offset)
        } else {
            sum(Ok(right_ask), offset)
        }
    } else {
        if first_is_buy {
            diff(Ok(left_bid), offset)
        } else {
            diff(Ok(left_ask), offset)
        }
    }
}

/// A limit that neither crosses the book nor stands within `min_ticks` of its
/// own side.
pub open spec fn limit_admitted(
    px: Decimal,
    first_is_buy: bool,
    bid: Decimal,
    ask: Decimal,
    tick: Decimal,
    min_ticks: u32,
) -> Result<bool, ArithError> {
    let room = prod(Ok(tick), Ok(lit(min_ticks as int, 0)));
    if first_is_buy {
        if px.units() >= ask.units() {
            Ok(false)
        } else if min_ticks > 0 && tick.units() > 0 {
            match diff(Ok(bid), room) {
                Ok(cap) => Ok(px.units() <= cap.units()),
                Err(e) => Err(e),
            }
        } else {
            Ok(true)
        }
    } else {
        if px.units() <= bid.units() {
            Ok(false)
        } else if min_ticks > 0 && tick.units() > 0 {
            match sum(Ok(ask), room) {
                Ok(floor) => Ok(px.units() >= floor.units()),
                Err(e) => Err(e),
            }
        } else {
            Ok(true)
        }
    }
}

/// The limit of the first leg, if one can be placed.
pub open spec fn first_limit(
    target: Decimal,
    first_is_left: bool,
    first_is_buy: bool,
    left_bid: Decimal,
    left_ask: Decimal,
    right_bid: Decimal,
    right_ask: Decimal,
    avg_mid: Decimal,
    tick: Decimal,
    min_ticks: u32,
) -> Result<Option<Decimal>, ArithError> {
    if avg_mid.units() <= 0 {
        Ok(None)
    } else {
        match implied_price(
            target,
            first_is_left,
            first_is_buy,
            left_bid,
            left_ask,
            right_bid,
            right_ask,
            avg_mid,
        ) {
            Err(e) => Err(e),
            Ok(raw) => if raw.units() <= 0 {
                Ok(None)
            } else {
                match on_tick(raw, tick) {
                    Err(e) => Err(e),
                    Ok(px) => {
                        let bid = if first_is_left {
                            left_bid
                        } else {
                            right_bid
                        };
                        let ask = if first_is_left {
                            left_ask
                        } else {
                            right_ask
                        };
                        match limit_admitted(px, first_is_buy, bid, ask, tick, min_ticks) {
                            Err(e) => Err(e),
                            Ok(true) => Ok(Some(px)),
                            Ok(false) => Ok(None),
                        }
                    },
                }
            },
        }
    }
}

fn limit_ok(
    px: Decimal,
    first_is_buy: bool,
    bid: Decimal,
    ask: Decimal,
    tick: Decimal,
    min_ticks: u32,
) -> (r: Result<bool, ArithError>)
    ensures
        r == limit_admitted(px, first_is_buy, bid, ask, tick, min_ticks),
{
    if first_is_buy {
        if px >= ask {
            return Ok(false);
        }
        if min_ticks > 0 && tick.is_positive() {
            let cap = bid.minus(tick.times(Decimal::from_int(min_ticks as i64))?)?;
            return Ok(px <= cap);
        }
    } else {
        if px <= bid {
            return Ok(false);
        }
        if min_ticks > 0 && tick.is_positive() {
            let floor = ask.plus(tick.times(Decimal::from_int(min_ticks as i64))?)?;
            return Ok(px >= floor);
        }
    }
    Ok(true)
}

/// Works the limit of the first leg back from the other venue's book.
pub fn implied_first_limit(
    target: Decimal,
    first_is_left: bool,
    first_is_buy: bool,
    left_bid: Decimal,
    left_ask: Decimal,
    right_bid: Decimal,
    right_ask: Decimal,
    avg_mid: Decimal,
    tick: Decimal,
    min_ticks: u32,
) -> (r: Result<Option<Decimal>, ArithError>)
    ensures
        r == first_limit(
            target,
            first_is_left,
            first_is_buy,
            left_bid,
            left_ask,
            right_bid,
            right_ask,
            avg_mid,
            tick,
            min_ticks,
        ),
{
    if !avg_mid.is_positive() {
        return Ok(None);
    }
    let offset = target.over(Decimal::from_int(100))?.times(avg_mid)?;
    let raw = if first_is_left {
        if first_is_buy {
            right_bid.plus(offset)?
        } else {
            right_ask.plus(offset)?
        }
    } else {
        if first_is_buy {
            left_bid.minus(offset)?
        } else {
            left_ask.minus(offset)?
        }
    };
    if !raw.is_positive() {
        return Ok(None);
    }
    let px = round_to_tick(raw, tick)?;
    let bid = if first_is_left {
        left_bid
    } else {
        right_bid
    };
    let ask = if first_is_left {
        left_ask
    } else {
        right_ask
    };
    if limit_ok(px, first_is_buy, bid, ask, tick, min_ticks)? {
        Ok(Some(px))
    } else {
        Ok(None)
    }
}

/// A limit that is placed never crosses its own venue's book.
pub proof fn law_first_limit_never_crosses(
    target: Decimal,
    first_is_left: bool,
    first_is_buy: bool,
    left_bid: Decimal,
    left_ask: Decimal,
    right_bid: Decimal,
    right_ask: Decimal,
    avg_mid: Decimal,
    tick: Decimal,
    min_ticks: u32,
)
    ensures
        first_limit(
            target,
            first_is_left,
            first_is_buy,
            left_bid,
            left_ask,
            right_bid,
            right_ask,
            avg_mid,
            tick,
            min_ticks,
        ) matches Ok(Some(px)) ==> {
            let bid = if first_is_left {
                left_bid
            } else {
                right_bid
            };
            let ask = if first_is_left {
                left_ask
            } else {
                right_ask
            };
            if first_is_buy {
                px.units() < ask.units()
            } else {
                px.units() > bid.units()
            }
        },
{
}

/// The new limit is at least `ticks` ticks off the old one; without ticks, it is
/// another price.
pub open spec fn moved(previous: Decimal, new: Decimal, tick: Decimal, ticks: u32) -> Result<
    bool,
    ArithError,
> {
    if tick.units() <= 0 || ticks == 0 {
        Ok(previous.units() != new.units())
    } else {
        match (diff(Ok(new), Ok(previous)), prod(Ok(tick), Ok(lit(ticks as int, 0)))) {
            (Ok(d), Ok(t)) => Ok(dabs(d).units() >= t.units()),
            _ => Err(ArithError),
        }
    }
}

pub fn limit_moved_ticks(previous: Decimal, new: Decimal, tick: Decimal, ticks: u32) -> (r: Result<
    bool,
    ArithError,
>)
    ensures
        r == moved(previous, new, tick, ticks),
{
    if !tick.is_positive() || ticks == 0 {
        return Ok(previous != new);
    }
    let d = new.minus(previous)?;
    Ok(d.abs() >= tick.times(Decimal::from_int(ticks as i64))?)
}

/// The key under which a resting quote of a slot is kept.
pub open spec fn quote_key(slot: Seq<char>, side: QuoteSide) -> Seq<char> {
    slot + "|"@ + side.word()
}

pub fn quote_pending_key(slot: &str, side: QuoteSide) -> (r: String)
    ensures
        r@ == quote_key(slot@, side),
{
    let mut out = joined(slot, "|");
    out.append(side.as_str());
    out
}

/// The lines next to a step take no rounding.
pub open spec fn stands_exactly(k: int, mu: Decimal, delta: Decimal, hysteresis: Decimal) -> bool {
    let up = prod(Ok(lit(k + 1, 0)), Ok(delta));
    let down = prod(Ok(lit(k - 1, 0)), Ok(delta));
    let shift = prod(Ok(hysteresis), Ok(delta));
    &&& multiplies_exactly(Ok(lit(k + 1, 0)), Ok(delta))
    &&& adds_exactly(Ok(mu), up)
    &&& if k == 0 {
        subtracts_exactly(Ok(mu), Ok(delta))
    } else {
        &&& multiplies_exactly(Ok(lit(k - 1, 0)), Ok(delta))
        &&& adds_exactly(Ok(mu), down)
        &&& hysteresis.units() > 0 ==> {
            &&& multiplies_exactly(Ok(hysteresis), Ok(delta))
            &&& k > 0 ==> adds_exactly(sum(Ok(mu), down), shift)
            &&& k < 0 ==> subtracts_exactly(sum(Ok(mu), down), shift)
        }
    }
}

/// The order up stands a whole number of steps' widths off the mean, one step further up; it
/// sells left and buys right. The order down stands one step further down, and where there is
/// a hysteresis that part of a width nearer to the present step above zero, further from it
/// below; it buys left and sells right. Away from zero a step's quantity is opened; toward
/// zero at most what is held is closed, and all of it on the last step.
pub proof fn law_quotes_stand_at_whole_steps(
    k: int,
    mu: Decimal,
    delta: Decimal,
    max_step: int,
    hysteresis: Decimal,
    left: VenueId,
    right: VenueId,
    base_qty: Decimal,
    held_qty: Decimal,
)
    requires
        -step_cap(max_step) <= k <= step_cap(max_step) <= i32::MAX,
        delta.units() > 0,
        base_qty.units() > 0,
        held_qty.units() > 0,
        stands_exactly(k, mu, delta, hysteresis),
    ensures
        ({
            let r = quotes_next_to(
                k,
                mu,
                delta,
                max_step,
                hysteresis,
                left,
                right,
                base_qty,
                held_qty,
            );
            let qs = r->Ok_0;
            let d = delta.units();
            let shift = if k == 0 || hysteresis.units() <= 0 {
                0
            } else if k > 0 {
                hysteresis.units() * d
            } else {
                -(hysteresis.units() * d)
            };
            &&& r is Ok
            &&& k < step_cap(max_step) <==> exists|i: int|
                0 <= i < qs.len() && (#[trigger] qs[i]).side == QuoteSide::Plus
            &&& k > -step_cap(max_step) <==> exists|i: int|
                0 <= i < qs.len() && (#[trigger] qs[i]).side == QuoteSide::Minus
            &&& forall|i: int|
                0 <= i < qs.len() ==> {
                    let q = #[trigger] qs[i];
                    &&& q.side == QuoteSide::Plus ==> q.target_spread.units() == mu.units() + (k
                        + 1) * d && q.buy == right && q.sell == left && q.grid_to == k + 1
                    &&& q.side == QuoteSide::Minus ==> (q.target_spread.units() - mu.units()
                        - (k - 1) * d) * whole() == shift && q.buy == left && q.sell == right
                        && q.grid_to == k - 1
                    &&& q.is_open ==> q.qty.units() == base_qty.units()
                    &&& !q.is_open ==> q.qty.units() <= held_qty.units()
                    &&& !q.is_open && q.grid_to == 0 ==> q.qty.units() == held_qty.units()
                    &&& !q.is_open && q.grid_to != 0 ==> q.qty.units() <= base_qty.units() && (
                    q.qty.units() == base_qty.units() || q.qty.units() == held_qty.units())
                }
        }),
{
    broadcast use lemma_lit, lemma_sign;

    lemma_whole();
    let w = whole();
    let d = delta.units();
    lemma_whole_number(k + 1);
    lemma_whole_number(k - 1);
    let up = value(prod(Ok(lit(k + 1, 0)), Ok(delta)));
    let a = k + 1;
    assert(up == a * d) by (nonlinear_arith)
        requires
            up * w == (a * w) * d,
            w > 0,
    ;
    let qs = quotes_next_to(
        k,
        mu,
        delta,
        max_step,
        hysteresis,
        left,
        right,
        base_qty,
        held_qty,
    )->Ok_0;
    if k != 0 {
        let down = value(prod(Ok(lit(k - 1, 0)), Ok(delta)));
        let b = k - 1;
        assert(down == b * d) by (nonlinear_arith)
            requires
                down * w == (b * w) * d,
                w > 0,
        ;
        if hysteresis.units() > 0 {
            let s = value(prod(Ok(hysteresis), Ok(delta)));
            assert((-s) * w == -(s * w)) by (nonlinear_arith);
        }
        assert(0 * w == 0) by (nonlinear_arith);
    } else {
        assert((0 - 1) * d == -d) by (nonlinear_arith);
        assert(0 * w == 0) by (nonlinear_arith);
    }
    let ups = quotes_up(k, mu, delta, max_step, left, right, base_qty, held_qty)->Ok_0;
    let downs = quotes_down(
        k,
        mu,
        delta,
        max_step,
        hysteresis,
        left,
        right,
        base_qty,
        held_qty,
    )->Ok_0;
    assert(qs == ups + downs);
    if k < step_cap(max_step) {
        assert(qs[0].side == QuoteSide::Plus);
    }
    if k > -step_cap(max_step) {
        assert(qs[ups.len() as int].side == QuoteSide::Minus);
    }
}

/// A line is far enough where the spread that can be traded is short of it by the gap: below a
/// line that is met from below, above one that is met from above.
pub proof fn law_far_enough_is_the_gap_away(
    target: Decimal,
    s_exec: Decimal,
    gap: Decimal,
)
    requires
        gap.units() > 0,
        subtracts_exactly(Ok(target), Ok(gap)),
        adds_exactly(Ok(target), Ok(gap)),
    ensures
        far_enough(target, s_exec, true, gap) == Ok::<bool, ArithError>(
            target.units() - s_exec.units() >= gap.units(),
        ),
        far_enough(target, s_exec, false, gap) == Ok::<bool, ArithError>(
            s_exec.units() - target.units() >= gap.units(),
        ),
{
}

/// Bringing a price to a tick takes no rounding but that to the tick.
pub open spec fn ticks_exactly(px: Decimal, tick: Decimal) -> bool {
    tick.units() > 0 ==> {
        let q = quot(Ok(px), Ok(tick));
        &&& divides_exactly(Ok(px), Ok(tick))
        &&& q->Ok_0.valid()
        &&& multiplies_exactly(Ok(dround(q->Ok_0, 0)), Ok(tick))
    }
}

/// A price on the ticks is a whole number of them, and no other lies nearer: it is within half
/// a tick of the price.
pub proof fn law_on_tick_is_the_nearest_tick(px: Decimal, tick: Decimal)
    requires
        ticks_exactly(px, tick),
    ensures
        on_tick(px, tick) is Ok,
        tick.units() <= 0 ==> value(on_tick(px, tick)) == px.units(),
        tick.units() > 0 ==> {
            let r = value(on_tick(px, tick));
            &&& 2 * magnitude(r - px.units()) <= tick.units()
            &&& exists|n: int| r == #[trigger] (n * tick.units())
        },
{
    if tick.units() > 0 {
        lemma_whole();
        let w = whole();
        let q = quot(Ok(px), Ok(tick))->Ok_0;
        lemma_rounded_whole(q);
        let n = dround(q, 0).mant();
        let t = tick.units();
        let x = px.units();
        let r = value(on_tick(px, tick));
        lemma_lit(n, 0);
        lemma_whole_number_of(dround(q, 0));
        assert(r == n * t) by (nonlinear_arith)
            requires
                r * w == (n * w) * t,
                w > 0,
        ;
        let e = n * w - q.units();
        let d = r - x;
        assert(d * w == e * t) by (nonlinear_arith)
            requires
                r == n * t,
                q.units() * t == x * w,
                e == n * w - q.units(),
                d == r - x,
        ;
        assert(2 * magnitude(d) <= t) by (nonlinear_arith)
            requires
                d * w == e * t,
                2 * magnitude(e) <= w,
                w > 0,
                t > 0,
        ;
    }
}

/// The price that the first leg must be filled at, before it is brought to a tick, takes no
/// rounding.
pub open spec fn implies_exactly(
    target: Decimal,
    first_is_left: bool,
    first_is_buy: bool,
    left_bid: Decimal,
    left_ask: Decimal,
    right_bid: Decimal,
    right_ask: Decimal,
    avg_mid: Decimal,
) -> bool {
    let offset = prod(quot(Ok(target), Ok(lit(100, 0))), Ok(avg_mid));
    &&& divides_exactly(Ok(target), Ok(lit(100, 0)))
    &&& multiplies_exactly(quot(Ok(target), Ok(lit(100, 0))), Ok(avg_mid))
    &&& first_is_left && first_is_buy ==> adds_exactly(Ok(right_bid), offset)
    &&& first_is_left && !first_is_buy ==> adds_exactly(Ok(right_ask), offset)
    &&& !first_is_left && first_is_buy ==> subtracts_exactly(Ok(left_bid), offset)
    &&& !first_is_left && !first_is_buy ==> subtracts_exactly(Ok(left_ask), offset)
}

/// Filled at the implied price, and the other leg at the other venue's best price, the two legs
/// are the target apart, left over right, in percent of the middle: a buy is set against the
/// price that the other leg sells at, a sell against the price that it buys at.
pub proof fn law_implied_price_gives_the_target_spread(
    target: Decimal,
    first_is_left: bool,
    first_is_buy: bool,
    left_bid: Decimal,
    left_ask: Decimal,
    right_bid: Decimal,
    right_ask: Decimal,
    avg_mid: Decimal,
)
    requires
        implies_exactly(
            target,
            first_is_left,
            first_is_buy,
            left_bid,
            left_ask,
            right_bid,
            right_ask,
            avg_mid,
        ),
    ensures
        ({
            let px = implied_price(
                target,
                first_is_left,
                first_is_buy,
                left_bid,
                left_ask,
                right_bid,
                right_ask,
                avg_mid,
            );
            let other = if first_is_left {
                if first_is_buy {
                    right_bid
                } else {
                    right_ask
                }
            } else {
                if first_is_buy {
                    left_bid
                } else {
                    left_ask
                }
            };
            let apart = if first_is_left {
                value(px) - other.units()
            } else {
                other.units() - value(px)
            };
            px is Ok && 100 * apart * whole() == target.units() * avg_mid.units()
        }),
{
    lemma_whole();
    lemma_whole_number(100);
    let w = whole();
    let t = target.units();
    let a = avg_mid.units();
    let q = value(quot(Ok(target), Ok(lit(100, 0))));
    let o = value(prod(quot(Ok(target), Ok(lit(100, 0))), Ok(avg_mid)));
    assert(100 * q == t) by (nonlinear_arith)
        requires
            q * (100 * w) == t * w,
            w > 0,
    ;
    assert(100 * o * w == t * a) by (nonlinear_arith)
        requires
            o * w == q * a,
            100 * q == t,
    ;
}

/// A limit that is admitted stays clear of the book: a buy below the ask and at least so many
/// ticks below the bid, a sell above the bid and at least so many ticks above the ask.
pub proof fn law_admitted_limit_keeps_its_distance(
    px: Decimal,
    bid: Decimal,
    ask: Decimal,
    tick: Decimal,
    min_ticks: u32,
)
    requires
        tick.units() > 0,
        min_ticks > 0,
        multiplies_exactly(Ok(tick), Ok(lit(min_ticks as int, 0))),
        subtracts_exactly(Ok(bid), prod(Ok(tick), Ok(lit(min_ticks as int, 0)))),
        adds_exactly(Ok(ask), prod(Ok(tick), Ok(lit(min_ticks as int, 0)))),
    ensures
        limit_admitted(px, true, bid, ask, tick, min_ticks) == Ok::<bool, ArithError>(
            px.units() < ask.units() && px.units() + min_ticks * tick.units() <= bid.units(),
        ),
        limit_admitted(px, false, bid, ask, tick, min_ticks) == Ok::<bool, ArithError>(
            px.units() > bid.units() && px.units() - min_ticks * tick.units() >= ask.units(),
        ),
        limit_admitted(px, true, bid, ask, tick, 0) == Ok::<bool, ArithError>(
            px.units() < ask.units(),
        ),
        limit_admitted(px, false, bid, ask, tick, 0) == Ok::<bool, ArithError>(
            px.units() > bid.units(),
        ),
{
    lemma_ticks(tick, min_ticks);
}

proof fn lemma_ticks(tick: Decimal, n: u32)
    requires
        multiplies_exactly(Ok(tick), Ok(lit(n as int, 0))),
    ensures
        value(prod(Ok(tick), Ok(lit(n as int, 0)))) == n * tick.units(),
{
    lemma_whole();
    lemma_whole_number(n as int);
    let w = whole();
    let t = tick.units();
    let k = n as int;
    let r = value(prod(Ok(tick), Ok(lit(n as int, 0))));
    assert(r == k * t) by (nonlinear_arith)
        requires
            r * w == t * (k * w),
            w > 0,
    ;
}

/// The limit that is placed is admitted, and within half a tick of the implied price: a hundred
/// times its distance from the other leg's price is the target percentage of the middle, to
/// fifty ticks.
pub proof fn law_first_limit_is_the_implied_price_on_a_tick(
    target: Decimal,
    first_is_left: bool,
    first_is_buy: bool,
    left_bid: Decimal,
    left_ask: Decimal,
    right_bid: Decimal,
    right_ask: Decimal,
    avg_mid: Decimal,
    tick: Decimal,
    min_ticks: u32,
)
    requires
        tick.units() > 0,
        implies_exactly(
            target,
            first_is_left,
            first_is_buy,
            left_bid,
            left_ask,
            right_bid,
            right_ask,
            avg_mid,
        ),
        ticks_exactly(
            implied_price(
                target,
                first_is_left,
                first_is_buy,
                left_bid,
                left_ask,
                right_bid,
                right_ask,
                avg_mid,
            )->Ok_0,
            tick,
        ),
    ensures
        first_limit(
            target,
            first_is_left,
            first_is_buy,
            left_bid,
            left_ask,
            right_bid,
            right_ask,
            avg_mid,
            tick,
            min_ticks,
        ) matches Ok(Some(px)) ==> {
            let (bid, ask) = if first_is_left {
                (left_bid, left_ask)
            } else {
                (right_bid, right_ask)
            };
            let other = if first_is_left {
                if first_is_buy {
                    right_bid
                } else {
                    right_ask
                }
            } else {
                if first_is_buy {
                    left_bid
                } else {
                    left_ask
                }
            };
            let apart = if first_is_left {
                px.units() - other.units()
            } else {
                other.units() - px.units()
            };
            &&& limit_admitted(px, first_is_buy, bid, ask, tick, min_ticks) == Ok::<
                bool,
                ArithError,
            >(true)
            &&& magnitude(100 * apart * whole() - target.units() * avg_mid.units()) <= 50
                * tick.units() * whole()
        },
{
    law_implied_price_gives_the_target_spread(
        target,
        first_is_left,
        first_is_buy,
        left_bid,
        left_ask,
        right_bid,
        right_ask,
        avg_mid,
    );
    let raw = implied_price(
        target,
        first_is_left,
        first_is_buy,
        left_bid,
        left_ask,
        right_bid,
        right_ask,
        avg_mid,
    )->Ok_0;
    law_on_tick_is_the_nearest_tick(raw, tick);
    lemma_whole();
    let w = whole();
    let e = value(on_tick(raw, tick)) - raw.units();
    let t = tick.units();
    assert(magnitude(100 * e * w) <= 50 * t * w && magnitude(-(100 * e * w)) <= 50 * t * w)
        by (nonlinear_arith)
        requires
            2 * magnitude(e) <= t,
            w > 0,
    ;
    let other = if first_is_left {
        if first_is_buy {
            right_bid
        } else {
            right_ask
        }
    } else {
        if first_is_buy {
            left_bid
        } else {
            left_ask
        }
    };
    let x = raw.units() - other.units();
    assert(100 * (x + e) * w == 100 * x * w + 100 * e * w && 100 * (-x - e) * w == 100 * (-x) * w
        - 100 * e * w) by (nonlinear_arith);
}

/// A limit has moved where it is so many ticks off the old one, on either side.
pub proof fn law_moved_is_so_many_ticks_away(
    previous: Decimal,
    new: Decimal,
    tick: Decimal,
    ticks: u32,
)
    requires
        tick.units() > 0,
        ticks > 0,
        subtracts_exactly(Ok(new), Ok(previous)),
        diff(Ok(new), Ok(previous))->Ok_0.valid(),
        multiplies_exactly(Ok(tick), Ok(lit(ticks as int, 0))),
    ensures
        moved(previous, new, tick, ticks) == Ok::<bool, ArithError>(
            magnitude(new.units() - previous.units()) >= ticks * tick.units(),
        ),
{
    lemma_ticks(tick, ticks);
    lemma_size(diff(Ok(new), Ok(previous))->Ok_0);
}

} // verus!
