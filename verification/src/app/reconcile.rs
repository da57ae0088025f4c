//! Holding memory against what the venues say is held.

use crate::app::balance::{
    all_answered, venue_at, VenueAccountCache, VenueAccountSnapshot, VenueExchangePosition,
};
use crate::decimal::{
    add_calc, adds_exactly, adds_up_exactly, dabs, diff, divides_exactly, dmax, dmin, dneg, dround,
    dtrunc, lemma_lit, lemma_multiple_value, lemma_rounded_whole, lemma_running_sum,
    lemma_sign, lemma_size, lemma_some_on_the_side, lemma_subtracts_exactly,
    lemma_whole, lit, magnitude, multiplies_exactly, prod, quot, running_sum, subtracts_exactly,
    sum, sums_exactly, units_of, value, whole, ArithError, Calc, Decimal,
};
use crate::domain::symbol::{Pair, VenueMarket};
use crate::keymap::{lists_in_order, KeyMap, KeySet};
use crate::text::{
    ascii_upper, has_prefix, joined, same, starts_with, to_ascii_upper, trim, trimmed,
};
use vstd::prelude::*;

verus! {

#[derive(Clone, Copy, Debug, PartialEq, Eq, Structural)]
pub enum NakedSource {
    /// Held before the start: only reported.
    Foreign,
    /// Left behind by a failed order: hedged on its own.
    BotFailure,
    /// What became of the second leg is not known. Not hedged on its own: if the
    /// leg was filled after all, that would double what is at stake.
    SecondLegUnknown,
}

/// A coin of which more is held on one side than on the other.
#[derive(Debug)]
pub struct NakedExposure {
    pub pair_id: String,
    pub venue: String,
    /// Signed: above zero more is held long.
    pub qty: Decimal,
    pub counterparty: String,
    pub source: NakedSource,
}

/// An exposure, its texts as sequences.
pub struct NakedModel {
    pub pair_id: Seq<char>,
    pub venue: Seq<char>,
    pub qty: Decimal,
    pub counterparty: Seq<char>,
    pub source: NakedSource,
}

pub open spec fn naked_model(n: NakedExposure) -> NakedModel {
    NakedModel {
        pair_id: n.pair_id@,
        venue: n.venue@,
        qty: n.qty,
        counterparty: n.counterparty@,
        source: n.source,
    }
}

// ---------------------------------------------------------------------------
// What a venue holds of a market
// ---------------------------------------------------------------------------

/// A venue's name for a position means a market: the market's own name, its
/// coin, or its coin and a hyphen in front of something.
pub open spec fn names_market(pos: Seq<char>, symbol: Seq<char>, base: Seq<char>) -> bool {
    let s = ascii_upper(trimmed(pos));
    let raw = ascii_upper(trimmed(symbol));
    let b = ascii_upper(trimmed(base));
    s == raw || s == b || has_prefix(s, b + "-"@)
}

pub fn symbol_matches_symbol(pos_symbol: &str, leg_symbol: &str, leg_base: &str) -> (r: bool)
    ensures
        r == names_market(pos_symbol@, leg_symbol@, leg_base@),
{
    let s = to_ascii_upper(trim(pos_symbol));
    let raw = to_ascii_upper(trim(leg_symbol));
    let base = to_ascii_upper(trim(leg_base));
    same(s.as_str(), raw.as_str()) || same(s.as_str(), base.as_str()) || starts_with(
        s.as_str(),
        joined(base.as_str(), "-").as_str(),
    )
}

pub open spec fn is_of(p: VenueExchangePosition, leg: VenueMarket) -> bool {
    names_market(p.symbol@, leg.raw_symbol@, leg.base@)
}

/// The entry price of a position is known.
pub open spec fn has_price(p: VenueExchangePosition) -> bool {
    p.entry_price is Some && p.entry_price->0.units() > 0
}

/// What is held of a market, signed.
pub open spec fn held_qty(s: Seq<VenueExchangePosition>, leg: VenueMarket) -> Calc
    decreases s.len(),
{
    if s.len() == 0 {
        Ok(lit(0, 0))
    } else if is_of(s.last(), leg) {
        sum(held_qty(s.drop_last(), leg), Ok(s.last().qty))
    } else {
        held_qty(s.drop_last(), leg)
    }
}

/// How much of it has a known entry price.
pub open spec fn priced_qty(s: Seq<VenueExchangePosition>, leg: VenueMarket) -> Calc
    decreases s.len(),
{
    if s.len() == 0 {
        Ok(lit(0, 0))
    } else if is_of(s.last(), leg) && has_price(s.last()) {
        sum(priced_qty(s.drop_last(), leg), Ok(dabs(s.last().qty)))
    } else {
        priced_qty(s.drop_last(), leg)
    }
}

/// What that was worth at entry.
pub open spec fn priced_value(s: Seq<VenueExchangePosition>, leg: VenueMarket) -> Calc
    decreases s.len(),
{
    if s.len() == 0 {
        Ok(lit(0, 0))
    } else if is_of(s.last(), leg) && has_price(s.last()) {
        sum(
            priced_value(s.drop_last(), leg),
            prod(Ok(s.last().entry_price->0), Ok(dabs(s.last().qty))),
        )
    } else {
        priced_value(s.drop_last(), leg)
    }
}

/// What is held of a market in a list of positions, and the mean entry price;
/// zero where no price is known.
pub open spec fn leg_in(s: Seq<VenueExchangePosition>, leg: VenueMarket) -> Result<
    (Decimal, Decimal),
    ArithError,
> {
    match (held_qty(s, leg), priced_qty(s, leg), priced_value(s, leg)) {
        (Ok(q), Ok(w), Ok(v)) => if w.units() > 0 {
            match quot(Ok(v), Ok(w)) {
                Ok(px) => Ok((q, px)),
                Err(e) => Err(e),
            }
        } else {
            Ok((q, lit(0, 0)))
        },
        _ => Err(ArithError),
    }
}

/// What the venue of a market holds of it, and at which mean price.
pub open spec fn leg_at(venues: Seq<VenueAccountSnapshot>, leg: VenueMarket) -> Result<
    (Decimal, Decimal),
    ArithError,
> {
    let i = venue_at(venues, leg.venue.0@);
    if i < venues.len() {
        leg_in(venues[i].positions@, leg)
    } else {
        Ok((lit(0, 0), lit(0, 0)))
    }
}

pub fn venue_leg(accounts: &VenueAccountCache, leg: &VenueMarket) -> (r: Result<
    (Decimal, Decimal),
    ArithError,
>)
    ensures
        r == leg_at(accounts.venues@, *leg),
{
    let acct = match accounts.get(leg.venue.as_str()) {
        None => {
            return Ok((Decimal::zero(), Decimal::zero()));
        },
        Some(a) => a,
    };
    let mut qty: Calc = Ok(Decimal::zero());
    let mut px_qty: Calc = Ok(Decimal::zero());
    let mut px_notional: Calc = Ok(Decimal::zero());
    let mut i: usize = 0;
    let ghost s = acct.positions@;
    proof {
        assert(s.take(0) =~= Seq::empty());
    }
    while i < acct.positions.len()
        invariant
            s == acct.positions@,
            i <= s.len(),
            qty == held_qty(s.take(i as int), *leg),
            px_qty == priced_qty(s.take(i as int), *leg),
            px_notional == priced_value(s.take(i as int), *leg),
        decreases acct.positions.len() - i,
    {
        let p = &acct.positions[i];
        proof {
            assert(s.take(i + 1).drop_last() =~= s.take(i as int));
        }
        if symbol_matches_symbol(p.symbol.as_str(), leg.raw_symbol.as_str(), leg.base.as_str()) {
            qty = add_calc(qty, Ok(p.qty));
            if let Some(px) = p.entry_price {
                if px.is_positive() {
                    let w = p.qty.abs();
                    px_qty = add_calc(px_qty, Ok(w));
                    px_notional = add_calc(px_notional, px.times(w));
                }
            }
        }
        i = i + 1;
    }
    proof {
        assert(s.take(i as int) =~= s);
    }
    let q = qty?;
    let w = px_qty?;
    let v = px_notional?;
    if w.is_positive() {
        Ok((q, v.over(w)?))
    } else {
        Ok((q, Decimal::zero()))
    }
}

// ---------------------------------------------------------------------------
// Exposures
// ---------------------------------------------------------------------------

/// A market put to the others unless its venue is among them.
pub open spec fn with_leg(s: Seq<VenueMarket>, m: VenueMarket) -> Seq<VenueMarket> {
    if exists|i: int| 0 <= i < s.len() && (#[trigger] s[i]).venue.0@ == m.venue.0@ {
        s
    } else {
        s.push(m)
    }
}

/// The markets of a coin over all its pairs, one for each venue.
pub open spec fn markets_of(pairs: Seq<Pair>, id: Seq<char>) -> Seq<VenueMarket>
    decreases pairs.len(),
{
    if pairs.len() == 0 {
        Seq::empty()
    } else {
        let init = markets_of(pairs.drop_last(), id);
        let p = pairs.last();
        if p.pair_id@ == id {
            with_leg(with_leg(init, p.legs@[0]), p.legs@[1])
        } else {
            init
        }
    }
}

fn take_leg(s: &mut Vec<VenueMarket>, m: &VenueMarket)
    ensures
        final(s)@ == with_leg(old(s)@, *m),
{
    let mut i: usize = 0;
    while i < s.len()
        invariant
            i <= s@.len(),
            s@ == old(s)@,
            forall|j: int| 0 <= j < i ==> (#[trigger] s@[j]).venue.0@ != m.venue.0@,
        decreases s.len() - i,
    {
        if s[i].venue == m.venue {
            return;
        }
        i = i + 1;
    }
    s.push(m.clone());
}

fn gather(pairs: &[Pair], id: &str) -> (r: Vec<VenueMarket>)
    ensures
        r@ == markets_of(pairs@, id@),
{
    let mut out: Vec<VenueMarket> = Vec::new();
    let mut i: usize = 0;
    proof {
        assert(pairs@.take(0) =~= Seq::empty());
    }
    while i < pairs.len()
        invariant
            i <= pairs@.len(),
            out@ == markets_of(pairs@.take(i as int), id@),
        decreases pairs.len() - i,
    {
        proof {
            assert(pairs@.take(i + 1).drop_last() =~= pairs@.take(i as int));
        }
        let p = &pairs[i];
        if same(p.pair_id.as_str(), id) {
            take_leg(&mut out, &p.legs[0]);
            take_leg(&mut out, &p.legs[1]);
        }
        i = i + 1;
    }
    proof {
        assert(pairs@.take(i as int) =~= pairs@);
    }
    out
}

/// The largest of the markets' smallest quantities.
pub open spec fn tolerance(s: Seq<VenueMarket>) -> Decimal
    decreases s.len(),
{
    if s.len() == 0 {
        lit(0, 0)
    } else if s.len() == 1 {
        s[0].min_qty
    } else {
        dmax(tolerance(s.drop_last()), s.last().min_qty)
    }
}

/// What each venue holds.
pub open spec fn holdings(venues: Seq<VenueAccountSnapshot>, s: Seq<VenueMarket>) -> Result<
    Seq<Decimal>,
    ArithError,
>
    decreases s.len(),
{
    if s.len() == 0 {
        Ok(Seq::empty())
    } else {
        match (holdings(venues, s.drop_last()), leg_at(venues, s.last())) {
            (Ok(init), Ok(l)) => Ok(init.push(l.0)),
            _ => Err(ArithError),
        }
    }
}

/// What is held in all, long and short against each other.
pub open spec fn net_of(qs: Seq<Decimal>) -> Calc
    decreases qs.len(),
{
    if qs.len() == 0 {
        Ok(lit(0, 0))
    } else {
        sum(net_of(qs.drop_last()), Ok(qs.last()))
    }
}

/// A holding on the side of the net.
pub open spec fn on_side(q: Decimal, net: Decimal) -> bool {
    q.units() != 0 && (q.units() >= 0) == (net.units() >= 0)
}

/// The largest holding on the side of the net, the last of equals; -1 where
/// there is none.
pub open spec fn main_at(qs: Seq<Decimal>, net: Decimal) -> int
    decreases qs.len(),
{
    if qs.len() == 0 {
        -1
    } else {
        let m = main_at(qs.drop_last(), net);
        if on_side(qs.last(), net) && (m < 0 || dabs(qs.last()).units() >= dabs(qs[m]).units()) {
            qs.len() - 1
        } else {
            m
        }
    }
}

/// The smallest holding of the others, the first of equals; -1 where there is
/// none. A venue that holds nothing goes first: a hedge there closes the gap.
pub open spec fn other_at(qs: Seq<Decimal>, main: int) -> int
    decreases qs.len(),
{
    if qs.len() == 0 {
        -1
    } else {
        let m = other_at(qs.drop_last(), main);
        if qs.len() - 1 != main && (m < 0 || dabs(qs.last()).units() < dabs(qs[m]).units()) {
            qs.len() - 1
        } else {
            m
        }
    }
}

/// What stands open on the markets of a coin.
pub open spec fn exposure_of(
    id: Seq<char>,
    s: Seq<VenueMarket>,
    venues: Seq<VenueAccountSnapshot>,
) -> Result<Option<NakedModel>, ArithError> {
    match holdings(venues, s) {
        Err(e) => Err(e),
        Ok(qs) => match net_of(qs) {
            Err(e) => Err(e),
            Ok(net) => {
                let main = main_at(qs, net);
                let other = other_at(qs, main);
                if dabs(net).units() <= tolerance(s).units() || main < 0 || other < 0 {
                    Ok(None)
                } else {
                    Ok(
                        Some(
                            NakedModel {
                                pair_id: id,
                                venue: s[main].venue.0@,
                                qty: net,
                                counterparty: s[other].venue.0@,
                                source: NakedSource::Foreign,
                            },
                        ),
                    )
                }
            },
        },
    }
}

/// What stands open on the named coins.
pub open spec fn exposures(
    ids: Seq<String>,
    pairs: Seq<Pair>,
    venues: Seq<VenueAccountSnapshot>,
) -> Result<Seq<NakedModel>, ArithError>
    decreases ids.len(),
{
    if ids.len() == 0 {
        Ok(Seq::empty())
    } else {
        match (
            exposures(ids.drop_last(), pairs, venues),
            exposure_of(ids.last()@, markets_of(pairs, ids.last()@), venues),
        ) {
            (Ok(init), Ok(Some(n))) => Ok(init.push(n)),
            (Ok(init), Ok(None)) => Ok(init),
            _ => Err(ArithError),
        }
    }
}

/// The coins of the pairs.
pub open spec fn coins(pairs: Seq<Pair>) -> Set<Seq<char>>
    decreases pairs.len(),
{
    if pairs.len() == 0 {
        Set::empty()
    } else {
        coins(pairs.drop_last()).insert(pairs.last().pair_id@)
    }
}

proof fn lemma_holdings_err(venues: Seq<VenueAccountSnapshot>, s: Seq<VenueMarket>, n: int)
    requires
        0 <= n <= s.len(),
        holdings(venues, s.take(n)) is Err,
    ensures
        holdings(venues, s) is Err,
    decreases s.len() - n,
{
    if n == s.len() {
        assert(s.take(n) =~= s);
    } else {
        assert(s.take(n + 1).drop_last() =~= s.take(n));
        lemma_holdings_err(venues, s, n + 1);
    }
}

proof fn lemma_exposures_err(
    ids: Seq<String>,
    pairs: Seq<Pair>,
    venues: Seq<VenueAccountSnapshot>,
    n: int,
)
    requires
        0 <= n <= ids.len(),
        exposures(ids.take(n), pairs, venues) is Err,
    ensures
        exposures(ids, pairs, venues) is Err,
    decreases ids.len() - n,
{
    if n == ids.len() {
        assert(ids.take(n) =~= ids);
    } else {
        assert(ids.take(n + 1).drop_last() =~= ids.take(n));
        lemma_exposures_err(ids, pairs, venues, n + 1);
    }
}

fn exposure(id: &str, s: &Vec<VenueMarket>, accounts: &VenueAccountCache) -> (r: Result<
    Option<NakedExposure>,
    ArithError,
>)
    ensures
        match r {
            Ok(Some(n)) => exposure_of(id@, s@, accounts.venues@) == Ok::<
                Option<NakedModel>,
                ArithError,
            >(Some(naked_model(n))),
            Ok(None) => exposure_of(id@, s@, accounts.venues@) == Ok::<
                Option<NakedModel>,
                ArithError,
            >(None),
            Err(_) => exposure_of(id@, s@, accounts.venues@) is Err,
        },
{
    let mut tol = Decimal::zero();
    let mut qs: Vec<Decimal> = Vec::new();
    let mut net: Calc = Ok(Decimal::zero());
    let mut i: usize = 0;
    proof {
        assert(s@.take(0) =~= Seq::empty());
    }
    while i < s.len()
        invariant
            i <= s@.len(),
            qs@.len() == i,
            tol == tolerance(s@.take(i as int)),
            holdings(accounts.venues@, s@.take(i as int)) == Ok::<Seq<Decimal>, ArithError>(qs@),
            net == net_of(qs@),
        decreases s.len() - i,
    {
        let ghost before = qs@;
        proof {
            assert(s@.take(i + 1).drop_last() =~= s@.take(i as int));
            assert(s@.take(i + 1).last() == s@[i as int]);
            assert(s@.take(i + 1)[0] == s@[0]);
        }
        tol = if i == 0 {
            s[0].min_qty
        } else {
            tol.max(s[i].min_qty)
        };
        let held = match venue_leg(accounts, &s[i]) {
            Ok(h) => h,
            Err(e) => {
                proof {
                    lemma_holdings_err(accounts.venues@, s@, i + 1);
                }
                return Err(e);
            },
        };
        qs.push(held.0);
        proof {
            assert(qs@.drop_last() =~= before);
        }
        net = add_calc(net, Ok(held.0));
        i = i + 1;
    }
    proof {
        assert(s@.take(i as int) =~= s@);
    }
    let total = net?;
    if total.abs() <= tol {
        return Ok(None);
    }
    let mut main: Option<usize> = None;
    let mut j: usize = 0;
    proof {
        assert(qs@.take(0) =~= Seq::empty());
    }
    while j < qs.len()
        invariant
            j <= qs@.len(),
            main_at(qs@.take(j as int), total) == (match main {
                Some(m) => m as int,
                None => -1int,
            }),
            main matches Some(m) ==> m < j,
        decreases qs.len() - j,
    {
        proof {
            let t = qs@.take(j + 1);
            assert(t.drop_last() =~= qs@.take(j as int));
            if main is Some {
                assert(t[main->0 as int] == qs@[main->0 as int]);
            }
        }
        let q = qs[j];
        if !q.is_zero() && q.is_sign_positive() == total.is_sign_positive() {
            let better = match main {
                None => true,
                Some(m) => q.abs() >= qs[m].abs(),
            };
            if better {
                main = Some(j);
            }
        }
        j = j + 1;
    }
    proof {
        assert(qs@.take(j as int) =~= qs@);
    }
    let at = match main {
        None => {
            return Ok(None);
        },
        Some(m) => m,
    };
    let mut other: Option<usize> = None;
    let mut k: usize = 0;
    while k < qs.len()
        invariant
            k <= qs@.len(),
            other_at(qs@.take(k as int), at as int) == (match other {
                Some(m) => m as int,
                None => -1int,
            }),
            other matches Some(m) ==> m < k,
        decreases qs.len() - k,
    {
        proof {
            let t = qs@.take(k + 1);
            assert(t.drop_last() =~= qs@.take(k as int));
            if other is Some {
                assert(t[other->0 as int] == qs@[other->0 as int]);
            }
        }
        if k != at {
            let better = match other {
                None => true,
                Some(m) => qs[k].abs() < qs[m].abs(),
            };
            if better {
                other = Some(k);
            }
        }
        k = k + 1;
    }
    proof {
        assert(qs@.take(k as int) =~= qs@);
    }
    match other {
        None => Ok(None),
        Some(o) => Ok(
            Some(
                NakedExposure {
                    pair_id: id.to_owned(),
                    venue: s[at].venue.0.clone(),
                    qty: total,
                    counterparty: s[o].venue.0.clone(),
                    source: NakedSource::Foreign,
                },
            ),
        ),
    }
}

fn coin_ids(pairs: &[Pair]) -> (r: KeySet)
    ensures
        r@.dom() == coins(pairs@),
{
    let mut out: KeySet = KeyMap::new();
    let mut i: usize = 0;
    proof {
        assert(pairs@.take(0) =~= Seq::empty());
        assert(out@.dom() =~= Set::empty());
    }
    while i < pairs.len()
        invariant
            i <= pairs@.len(),
            out@.dom() == coins(pairs@.take(i as int)),
        decreases pairs.len() - i,
    {
        proof {
            assert(pairs@.take(i + 1).drop_last() =~= pairs@.take(i as int));
        }
        let ghost before = out@;
        out.insert(pairs[i].pair_id.as_str(), ());
        proof {
            assert(out@.dom() =~= before.dom().insert(pairs@[i as int].pair_id@));
        }
        i = i + 1;
    }
    proof {
        assert(pairs@.take(i as int) =~= pairs@);
    }
    out
}

/// What stands open, coin by coin in dictionary order. A coin counts once over
/// all its pairs of venues: what matters is whether the venues together hold
/// nothing. Where a venue did not answer, nothing is reported: an empty list
/// only says that its positions are not known.
pub fn detect_naked_exposures(pairs: &[Pair], accounts: &VenueAccountCache) -> (r: Result<
    Vec<NakedExposure>,
    ArithError,
>)
    ensures
        !all_answered(accounts.venues@) ==> (r matches Ok(v) && v@.len() == 0),
        all_answered(accounts.venues@) ==> exists|ids: Seq<String>| #[trigger]
            lists_in_order(ids, coins(pairs@)) && match r {
                Ok(v) => exposures(ids, pairs@, accounts.venues@) == Ok::<
                    Seq<NakedModel>,
                    ArithError,
                >(v@.map_values(|n: NakedExposure| naked_model(n))),
                Err(_) => exposures(ids, pairs@, accounts.venues@) is Err,
            },
{
    let mut out: Vec<NakedExposure> = Vec::new();
    if !accounts.all_fresh() {
        return Ok(out);
    }
    let ids = coin_ids(pairs).sorted_keys();
    let ghost all = ids@;
    let mut i: usize = 0;
    proof {
        assert(all.take(0) =~= Seq::empty());
        assert(out@.map_values(|n: NakedExposure| naked_model(n)) =~= Seq::empty());
    }
    while i < ids.len()
        invariant
            all_answered(accounts.venues@),
            all == ids@,
            lists_in_order(all, coins(pairs@)),
            i <= all.len(),
            exposures(all.take(i as int), pairs@, accounts.venues@) == Ok::<
                Seq<NakedModel>,
                ArithError,
            >(out@.map_values(|n: NakedExposure| naked_model(n))),
        decreases ids.len() - i,
    {
        let ghost before = out@;
        proof {
            assert(all.take(i + 1).drop_last() =~= all.take(i as int));
        }
        let markets = gather(pairs, ids[i].as_str());
        match exposure(ids[i].as_str(), &markets, accounts) {
            Err(e) => {
                proof {
                    lemma_exposures_err(all, pairs@, accounts.venues@, i + 1);
                }
                return Err(e);
            },
            Ok(None) => {},
            Ok(Some(n)) => {
                let ghost m = naked_model(n);
                out.push(n);
                proof {
                    assert(out@.map_values(|n: NakedExposure| naked_model(n))
                        =~= before.map_values(|n: NakedExposure| naked_model(n)).push(m));
                }
            },
        }
        i = i + 1;
    }
    proof {
        assert(all.take(i as int) =~= all);
    }
    Ok(out)
}

// ---------------------------------------------------------------------------
// Two legs against memory
// ---------------------------------------------------------------------------

/// Memory against what two legs hold: none where they agree, else what memory
/// and the venues have. One leg alone says nothing: the other often comes some
/// seconds later. Two legs on the same side hedge nothing.
pub open spec fn audited(a: Decimal, b: Decimal, tol: Decimal, memory: Decimal) -> Result<
    Option<(Decimal, Decimal)>,
    ArithError,
> {
    if (a.units() == 0) != (b.units() == 0) {
        Ok(None)
    } else if a.units() != 0 && (a.units() >= 0) == (b.units() >= 0) {
        Ok(Some((memory, lit(0, 0))))
    } else {
        let hedged = dmin(dabs(a), dabs(b));
        match diff(Ok(memory), Ok(hedged)) {
            Err(e) => Err(e),
            Ok(d) => if dabs(d).units() <= tol.units() {
                Ok(None)
            } else {
                Ok(Some((memory, hedged)))
            },
        }
    }
}

/// How the quantity in memory differs from what the venues hold, if it does.
pub fn audit_position_qty(pair: &Pair, accounts: &VenueAccountCache, memory_qty: Decimal) -> (r:
    Result<Option<(Decimal, Decimal)>, ArithError>)
    ensures
        r == (if !all_answered(accounts.venues@) || memory_qty.units() <= 0 {
            Ok(None)
        } else {
            match (
                leg_at(accounts.venues@, pair.legs@[0]),
                leg_at(accounts.venues@, pair.legs@[1]),
            ) {
                (Ok(a), Ok(b)) => audited(
                    a.0,
                    b.0,
                    dmax(pair.legs@[0].min_qty, pair.legs@[1].min_qty),
                    memory_qty,
                ),
                _ => Err(ArithError),
            }
        }),
{
    if !accounts.all_fresh() || !memory_qty.is_positive() {
        return Ok(None);
    }
    let a = venue_leg(accounts, &pair.legs[0])?.0;
    let b = venue_leg(accounts, &pair.legs[1])?.0;
    if a.is_zero() != b.is_zero() {
        return Ok(None);
    }
    if !a.is_zero() && !b.is_zero() && a.is_sign_positive() == b.is_sign_positive() {
        return Ok(Some((memory_qty, Decimal::zero())));
    }
    let hedged = a.abs().min(b.abs());
    let tol = pair.min_qty();
    if memory_qty.minus(hedged)?.abs() <= tol {
        return Ok(None);
    }
    Ok(Some((memory_qty, hedged)))
}

/// What two legs on opposite sides have in common.
#[derive(Debug)]
pub struct OppositeHedge {
    pub qty: Decimal,
    pub buy: String,
    pub sell: String,
    pub buy_px: Decimal,
    pub sell_px: Decimal,
}

/// `h` is the overlap of two legs on opposite sides.
pub open spec fn is_overlap(
    h: OppositeHedge,
    pair: Pair,
    a: (Decimal, Decimal),
    b: (Decimal, Decimal),
) -> bool {
    &&& h.qty == dmin(dabs(a.0), dabs(b.0))
    &&& if a.0.units() > 0 {
        h.buy@ == pair.legs@[0].venue.0@ && h.sell@ == pair.legs@[1].venue.0@ && h.buy_px == a.1
            && h.sell_px == b.1
    } else {
        h.buy@ == pair.legs@[1].venue.0@ && h.sell@ == pair.legs@[0].venue.0@ && h.buy_px == b.1
            && h.sell_px == a.1
    }
}

/// Both legs hold something, on opposite sides.
pub open spec fn opposed(a: Decimal, b: Decimal) -> bool {
    a.units() != 0 && b.units() != 0 && (a.units() >= 0) != (b.units() >= 0)
}

/// The overlap of what two venues hold on opposite sides, to take up what memory
/// has lost.
pub fn exchange_opposite_hedge(pair: &Pair, accounts: &VenueAccountCache) -> (r: Result<
    Option<OppositeHedge>,
    ArithError,
>)
    ensures
        !all_answered(accounts.venues@) ==> r matches Ok(None),
        all_answered(accounts.venues@) ==> match (
            leg_at(accounts.venues@, pair.legs@[0]),
            leg_at(accounts.venues@, pair.legs@[1]),
        ) {
            (Ok(a), Ok(b)) => if opposed(a.0, b.0) {
                r matches Ok(Some(h)) && is_overlap(h, *pair, a, b)
            } else {
                r matches Ok(None)
            },
            _ => r is Err,
        },
{
    broadcast use crate::decimal::lemma_sign;

    if !accounts.all_fresh() {
        return Ok(None);
    }
    let (a_qty, a_px) = venue_leg(accounts, &pair.legs[0])?;
    let (b_qty, b_px) = venue_leg(accounts, &pair.legs[1])?;
    if a_qty.is_zero() || b_qty.is_zero() {
        return Ok(None);
    }
    if a_qty.is_sign_positive() == b_qty.is_sign_positive() {
        return Ok(None);
    }
    let qty = a_qty.abs().min(b_qty.abs());
    let left = pair.legs[0].venue.0.clone();
    let right = pair.legs[1].venue.0.clone();
    if a_qty.is_positive() {
        Ok(Some(OppositeHedge { qty, buy: left, sell: right, buy_px: a_px, sell_px: b_px }))
    } else {
        Ok(Some(OppositeHedge { qty, buy: right, sell: left, buy_px: b_px, sell_px: a_px }))
    }
}

/// How many steps a quantity makes, at least one and at most `max_step`.
pub open spec fn steps_in(steps: Decimal, max_step: int) -> int {
    let m = dtrunc(steps).mant();
    let n = if m < 1 || m > i32::MAX {
        1
    } else {
        m
    };
    let cap = if max_step < 1 {
        1
    } else {
        max_step
    };
    if n > cap {
        cap
    } else {
        n
    }
}

/// The signed step that a quantity stands for.
pub fn hedge_grid_step(qty: Decimal, base_qty: Decimal, max_step: i32, plus: bool) -> (r: Result<
    i32,
    ArithError,
>)
    ensures
        ({
            let steps = if base_qty.units() > 0 {
                match quot(Ok(qty), Ok(base_qty)) {
                    Ok(q) => Ok(dround(q, 0)),
                    Err(e) => Err(e),
                }
            } else {
                Ok(lit(1, 0))
            };
            match steps {
                Err(_) => r is Err,
                Ok(s) => r matches Ok(k) && k == (if plus {
                    steps_in(s, max_step as int)
                } else {
                    -steps_in(s, max_step as int)
                }),
            }
        }),
        // Above zero on the one side and below it on the other, at least one step and at most
        // as many as there may be.
        r matches Ok(k) ==> (k > 0 <==> plus) && 1 <= (if plus {
            k as int
        } else {
            -k
        }) <= (if max_step < 1 {
            1
        } else {
            max_step as int
        }),
{
    let cap: i32 = if max_step < 1 {
        1
    } else {
        max_step
    };
    let steps = if base_qty.is_positive() {
        qty.over(base_qty)?.round()
    } else {
        Decimal::one()
    };
    let m: i128 = steps.trunc().mantissa();
    let n: i32 = if m < 1 || m > 2147483647 {
        1
    } else {
        m as i32
    };
    let k: i32 = if n > cap {
        cap
    } else {
        n
    };
    Ok(
        if plus {
            k
        } else {
            -k
        },
    )
}

/// How much of the first leg was newly filled, at most what was planned; none
/// where it is too little to count.
pub fn first_leg_fill_delta(
    baseline: Decimal,
    current: Decimal,
    is_buy: bool,
    plan_qty: Decimal,
    min_qty: Decimal,
) -> (r: Result<Option<Decimal>, ArithError>)
    ensures
        r == (match if is_buy {
            diff(Ok(current), Ok(baseline))
        } else {
            diff(Ok(baseline), Ok(current))
        } {
            Err(e) => Err(e),
            Ok(d) => if d.units() >= min_qty.units() && d.units() > 0 {
                Ok(Some(dmin(d, plan_qty)))
            } else {
                Ok(None)
            },
        }),
        // A buy is filled by what is held more than before, a sell by what is held less.
        ({
            let filled = if is_buy {
                current.units() - baseline.units()
            } else {
                baseline.units() - current.units()
            };
            let exact = if is_buy {
                sums_exactly(current, dneg(baseline))
            } else {
                sums_exactly(baseline, dneg(current))
            };
            exact ==> if filled >= min_qty.units() && filled > 0 {
                r matches Ok(Some(q)) && q.units() <= filled && q.units() <= plan_qty.units() && (
                q.units() == filled || q.units() == plan_qty.units())
            } else {
                r matches Ok(None)
            }
        }),
{
    let delta = if is_buy {
        let d = current.minus(baseline);
        proof {
            if sums_exactly(current, dneg(baseline)) {
                lemma_subtracts_exactly(current, baseline);
            }
        }
        d?
    } else {
        let d = baseline.minus(current);
        proof {
            if sums_exactly(baseline, dneg(current)) {
                lemma_subtracts_exactly(baseline, current);
            }
        }
        d?
    };
    if delta >= min_qty && delta.is_positive() {
        Ok(Some(delta.min(plan_qty)))
    } else {
        Ok(None)
    }
}

/// An open short is bought back, an open long is sold.
pub fn counterparty_hedge_is_buy(naked_qty: Decimal) -> (r: bool)
    ensures
        r == (naked_qty.units() < 0),
{
    !naked_qty.is_sign_positive()
}

pub fn hedge_qty(naked_qty: Decimal) -> (r: Decimal)
    ensures
        r == dabs(naked_qty),
        r.units() == magnitude(naked_qty.units()),
{
    let r = naked_qty.abs();
    proof {
        lemma_sign(naked_qty);
        lemma_multiple_value(
            naked_qty,
            if naked_qty.mant() < 0 {
                -1
            } else {
                1
            },
            r,
        );
    }
    r
}

// ---------------------------------------------------------------------------
// Laws
// ---------------------------------------------------------------------------

proof fn lemma_exposure_len(ids: Seq<String>, pairs: Seq<Pair>, venues: Seq<VenueAccountSnapshot>)
    ensures
        exposures(ids, pairs, venues) matches Ok(v) ==> v.len() <= ids.len() && (forall|i: int|
            0 <= i < v.len() ==> exists|k: int|
                0 <= k < ids.len() && (#[trigger] ids[k])@ == (#[trigger] v[i]).pair_id),
    decreases ids.len(),
{
    if ids.len() > 0 {
        lemma_exposure_len(ids.drop_last(), pairs, venues);
        if exposures(ids, pairs, venues) is Ok {
            let v = exposures(ids, pairs, venues)->Ok_0;
            let init = exposures(ids.drop_last(), pairs, venues)->Ok_0;
            assert forall|i: int| 0 <= i < v.len() implies exists|k: int|
                0 <= k < ids.len() && (#[trigger] ids[k])@ == (#[trigger] v[i]).pair_id by {
                if i < init.len() {
                    assert(v[i] == init[i]);
                    let k = choose|k: int|
                        0 <= k < ids.drop_last().len() && (#[trigger] ids.drop_last()[k])@
                            == init[i].pair_id;
                    assert(ids[k] == ids.drop_last()[k]);
                } else {
                    assert(ids[ids.len() - 1]@ == v[i].pair_id);
                }
            }
        }
    }
}

/// A coin is reported at most once, however many pairs of venues it trades on.
pub proof fn law_one_report_for_a_coin(
    ids: Seq<String>,
    pairs: Seq<Pair>,
    venues: Seq<VenueAccountSnapshot>,
    i: int,
    j: int,
)
    requires
        lists_in_order(ids, coins(pairs)),
        exposures(ids, pairs, venues) is Ok,
        0 <= i < j < exposures(ids, pairs, venues)->Ok_0.len(),
    ensures
        exposures(ids, pairs, venues)->Ok_0[i].pair_id != exposures(
            ids,
            pairs,
            venues,
        )->Ok_0[j].pair_id,
{
    lemma_reports_ordered(ids, pairs, venues);
    let v = exposures(ids, pairs, venues)->Ok_0;
    crate::text::law_lex_asymmetric(v[i].pair_id, v[j].pair_id);
}

proof fn lemma_reports_ordered(
    ids: Seq<String>,
    pairs: Seq<Pair>,
    venues: Seq<VenueAccountSnapshot>,
)
    requires
        forall|i: int, j: int|
            0 <= i < j < ids.len() ==> crate::text::lex_lt(
                #[trigger] ids[i]@,
                #[trigger] ids[j]@,
            ),
        exposures(ids, pairs, venues) is Ok,
    ensures
        ({
            let v = exposures(ids, pairs, venues)->Ok_0;
            forall|i: int, j: int|
                0 <= i < j < v.len() ==> crate::text::lex_lt(
                    (#[trigger] v[i]).pair_id,
                    (#[trigger] v[j]).pair_id,
                )
        }),
    decreases ids.len(),
{
    if ids.len() > 0 {
        let init_ids = ids.drop_last();
        assert forall|i: int, j: int| 0 <= i < j < init_ids.len() implies crate::text::lex_lt(
            #[trigger] init_ids[i]@,
            #[trigger] init_ids[j]@,
        ) by {
            assert(init_ids[i] == ids[i] && init_ids[j] == ids[j]);
        }
        lemma_reports_ordered(init_ids, pairs, venues);
        lemma_exposure_len(init_ids, pairs, venues);
        let v = exposures(ids, pairs, venues)->Ok_0;
        let init = exposures(init_ids, pairs, venues)->Ok_0;
        assert forall|i: int, j: int| 0 <= i < j < v.len() implies crate::text::lex_lt(
            (#[trigger] v[i]).pair_id,
            (#[trigger] v[j]).pair_id,
        ) by {
            assert(v[i] == init[i]);
            if j < init.len() {
                assert(v[j] == init[j]);
            } else {
                let k = choose|k: int|
                    0 <= k < init_ids.len() && (#[trigger] init_ids[k])@ == init[i].pair_id;
                assert(ids[k] == init_ids[k]);
                assert(crate::text::lex_lt(ids[k]@, ids[ids.len() - 1]@));
            }
        }
    }
}

/// Two legs of equal size on opposite sides stand for no exposure, where the
/// smallest quantity is not below zero.
pub proof fn law_hedged_is_not_naked(
    id: Seq<char>,
    s: Seq<VenueMarket>,
    venues: Seq<VenueAccountSnapshot>,
)
    requires
        holdings(venues, s) matches Ok(qs) && (net_of(qs) matches Ok(net) && net.valid() && net.units() == 0),
        tolerance(s).units() >= 0,
    ensures
        exposure_of(id, s, venues) == Ok::<Option<NakedModel>, ArithError>(None),
{
    broadcast use crate::decimal::lemma_sign, crate::decimal::lemma_lit;

    let net = net_of(holdings(venues, s)->Ok_0)->Ok_0;
    assert(net.mant() == 0);
    assert(dabs(net).units() == 0);
}

/// What the positions of a venue in a market come to, long and short against each other.
pub open spec fn units_held(s: Seq<VenueExchangePosition>, leg: VenueMarket) -> int
    decreases s.len(),
{
    if s.len() == 0 {
        0
    } else {
        units_held(s.drop_last(), leg) + (if is_of(s.last(), leg) {
            s.last().qty.units()
        } else {
            0
        })
    }
}

/// The quantities of the positions in a market.
pub open spec fn quantities(s: Seq<VenueExchangePosition>, leg: VenueMarket) -> Seq<Decimal>
    decreases s.len(),
{
    if s.len() == 0 {
        Seq::empty()
    } else if is_of(s.last(), leg) {
        quantities(s.drop_last(), leg).push(s.last().qty)
    } else {
        quantities(s.drop_last(), leg)
    }
}

/// What a venue holds of a market is the signed sum of its positions there.
pub proof fn law_a_leg_holds_the_sum_of_its_positions(
    s: Seq<VenueExchangePosition>,
    leg: VenueMarket,
)
    requires
        adds_up_exactly(quantities(s, leg)),
    ensures
        leg_in(s, leg) matches Ok(l) ==> l.0.units() == units_held(s, leg),
        held_qty(s, leg) is Ok,
        value(held_qty(s, leg)) == units_held(s, leg),
{
    lemma_quantities(s, leg);
    lemma_running_sum(quantities(s, leg));
}

proof fn lemma_quantities(s: Seq<VenueExchangePosition>, leg: VenueMarket)
    ensures
        held_qty(s, leg) == running_sum(quantities(s, leg)),
        units_held(s, leg) == units_of(quantities(s, leg)),
    decreases s.len(),
{
    if s.len() > 0 {
        lemma_quantities(s.drop_last(), leg);
        if is_of(s.last(), leg) {
            assert(quantities(s, leg).drop_last() =~= quantities(s.drop_last(), leg));
        }
    }
}

/// The entry price of a leg is the mean over its positions of a known price: times the
/// quantity it is known for it gives what they were worth.
pub proof fn law_entry_price_is_the_mean(s: Seq<VenueExchangePosition>, leg: VenueMarket)
    requires
        priced_exactly(s, leg),
        units_priced(s, leg) > 0,
        held_qty(s, leg) is Ok,
        divides_exactly(priced_value(s, leg), priced_qty(s, leg)),
    ensures
        leg_in(s, leg) matches Ok(l) && l.1.units() * units_priced(s, leg) == worth_priced(s, leg),
{
    lemma_priced(s, leg);
}

/// How much is held at a known price, on whichever side.
pub open spec fn units_priced(s: Seq<VenueExchangePosition>, leg: VenueMarket) -> int
    decreases s.len(),
{
    if s.len() == 0 {
        0
    } else {
        units_priced(s.drop_last(), leg) + (if is_of(s.last(), leg) && has_price(s.last()) {
            magnitude(s.last().qty.units())
        } else {
            0
        })
    }
}

/// Price times quantity over the positions of a known price.
pub open spec fn worth_priced(s: Seq<VenueExchangePosition>, leg: VenueMarket) -> int
    decreases s.len(),
{
    if s.len() == 0 {
        0
    } else {
        worth_priced(s.drop_last(), leg) + (if is_of(s.last(), leg) && has_price(s.last()) {
            s.last().entry_price->0.units() * magnitude(s.last().qty.units())
        } else {
            0
        })
    }
}

/// Nothing is rounded away while quantities and values are added up.
pub open spec fn priced_exactly(s: Seq<VenueExchangePosition>, leg: VenueMarket) -> bool
    decreases s.len(),
{
    s.len() == 0 || (priced_exactly(s.drop_last(), leg) && (is_of(s.last(), leg) && has_price(
        s.last(),
    ) ==> {
        let px = Ok::<Decimal, ArithError>(s.last().entry_price->0);
        let q = Ok::<Decimal, ArithError>(dabs(s.last().qty));
        &&& s.last().qty.valid()
        &&& adds_exactly(priced_qty(s.drop_last(), leg), q)
        &&& multiplies_exactly(px, q)
        &&& adds_exactly(priced_value(s.drop_last(), leg), prod(px, q))
    }))
}

proof fn lemma_priced(s: Seq<VenueExchangePosition>, leg: VenueMarket)
    requires
        priced_exactly(s, leg),
    ensures
        priced_qty(s, leg) is Ok,
        value(priced_qty(s, leg)) == units_priced(s, leg),
        priced_value(s, leg) is Ok,
        value(priced_value(s, leg)) * whole() == worth_priced(s, leg),
    decreases s.len(),
{
    broadcast use lemma_lit, lemma_sign;

    if s.len() == 0 {
        assert(0 * whole() == 0);
    } else {
        lemma_priced(s.drop_last(), leg);
        if is_of(s.last(), leg) && has_price(s.last()) {
            lemma_size(s.last().qty);
            let a = value(priced_value(s.drop_last(), leg));
            let b = value(
                prod(Ok(s.last().entry_price->0), Ok(dabs(s.last().qty))),
            );
            let w = whole();
            assert((a + b) * w == a * w + b * w) by (nonlinear_arith);
        }
    }
}

/// What the venues of some markets hold together, long and short against each other.
pub open spec fn units_in_all(venues: Seq<VenueAccountSnapshot>, s: Seq<VenueMarket>) -> int
    decreases s.len(),
{
    if s.len() == 0 {
        0
    } else {
        let i = venue_at(venues, s.last().venue.0@);
        units_in_all(venues, s.drop_last()) + (if i < venues.len() {
            units_held(venues[i].positions@, s.last())
        } else {
            0
        })
    }
}

/// Nothing is rounded away while what the venues hold is added up.
pub open spec fn held_exactly(venues: Seq<VenueAccountSnapshot>, s: Seq<VenueMarket>) -> bool {
    &&& forall|k: int|
        0 <= k < s.len() && venue_at(venues, (#[trigger] s[k]).venue.0@) < venues.len()
            ==> adds_up_exactly(
            quantities(venues[venue_at(venues, s[k].venue.0@)].positions@, s[k]),
        )
    &&& holdings(venues, s) matches Ok(qs) && adds_up_exactly(qs)
}

proof fn lemma_holdings_units(venues: Seq<VenueAccountSnapshot>, s: Seq<VenueMarket>)
    requires
        forall|k: int|
            0 <= k < s.len() && venue_at(venues, (#[trigger] s[k]).venue.0@) < venues.len()
                ==> adds_up_exactly(
                quantities(venues[venue_at(venues, s[k].venue.0@)].positions@, s[k]),
            ),
        holdings(venues, s) is Ok,
    ensures
        holdings(venues, s)->Ok_0.len() == s.len(),
        units_of(holdings(venues, s)->Ok_0) == units_in_all(venues, s),
    decreases s.len(),
{
    broadcast use lemma_lit, lemma_sign;

    if s.len() > 0 {
        let t = s.drop_last();
        assert forall|k: int|
            0 <= k < t.len() && venue_at(venues, (#[trigger] t[k]).venue.0@)
                < venues.len() implies adds_up_exactly(
            quantities(venues[venue_at(venues, t[k].venue.0@)].positions@, t[k]),
        ) by {
            assert(t[k] == s[k]);
        }
        lemma_holdings_units(venues, t);
        let qs = holdings(venues, s)->Ok_0;
        assert(qs.drop_last() =~= holdings(venues, t)->Ok_0);
        let last = s[s.len() - 1];
        let i = venue_at(venues, last.venue.0@);
        if i < venues.len() {
            law_a_leg_holds_the_sum_of_its_positions(venues[i].positions@, last);
        }
    }
}

proof fn lemma_net(qs: Seq<Decimal>)
    ensures
        net_of(qs) == running_sum(qs),
    decreases qs.len(),
{
    if qs.len() > 0 {
        lemma_net(qs.drop_last());
    }
}

/// `m` is where the most is held on the side of the net.
proof fn lemma_main(qs: Seq<Decimal>, net: Decimal)
    ensures
        -1 <= main_at(qs, net) < qs.len(),
        main_at(qs, net) < 0 ==> forall|i: int| 0 <= i < qs.len() ==> !on_side(#[trigger] qs[i], net),
        main_at(qs, net) >= 0 ==> on_side(qs[main_at(qs, net)], net) && forall|i: int|
            0 <= i < qs.len() && on_side(#[trigger] qs[i], net) ==> dabs(qs[i]).units() <= dabs(
                qs[main_at(qs, net)],
            ).units(),
    decreases qs.len(),
{
    if qs.len() > 0 {
        let t = qs.drop_last();
        lemma_main(t, net);
        assert(forall|i: int| 0 <= i < t.len() ==> #[trigger] qs[i] == t[i]);
    }
}

/// `o` is where the least is held apart from `main`.
proof fn lemma_other(qs: Seq<Decimal>, main: int)
    ensures
        -1 <= other_at(qs, main) < qs.len(),
        other_at(qs, main) != main || main < 0,
        other_at(qs, main) < 0 ==> qs.len() == 0 || (qs.len() == 1 && main == 0),
        other_at(qs, main) >= 0 ==> forall|i: int|
            0 <= i < qs.len() && i != main ==> dabs(#[trigger] qs[i]).units() >= dabs(
                qs[other_at(qs, main)],
            ).units(),
    decreases qs.len(),
{
    if qs.len() > 0 {
        let t = qs.drop_last();
        lemma_other(t, main);
        assert(forall|i: int| 0 <= i < t.len() ==> #[trigger] qs[i] == t[i]);
    }
}

proof fn lemma_tolerance(s: Seq<VenueMarket>)
    ensures
        forall|k: int| 0 <= k < s.len() ==> (#[trigger] s[k]).min_qty.units() <= tolerance(s).units(),
        s.len() > 0 ==> exists|k: int| 0 <= k < s.len() && (#[trigger] s[k]).min_qty == tolerance(s),
    decreases s.len(),
{
    if s.len() > 0 {
        let t = s.drop_last();
        lemma_tolerance(t);
        assert(forall|k: int| 0 <= k < t.len() ==> #[trigger] s[k] == t[k]);
        assert(s[s.len() - 1] == s.last());
        if s.len() > 1 {
            let k = choose|k: int| 0 <= k < t.len() && (#[trigger] t[k]).min_qty == tolerance(t);
            assert(s[k] == t[k]);
        } else {
            assert(s[0].min_qty == tolerance(s));
        }
    }
}

/// What is reported of a coin is what all its venues hold together, signed, so that an order
/// of the opposite quantity leaves nothing. It is reported where it exceeds the smallest
/// quantity of every market and there are two venues, and not otherwise. The venue that is
/// named holds the most on that side, and the hedge goes to the one of the others that
/// holds the least.
pub proof fn law_exposure_is_what_is_missing_to_a_hedge(
    id: Seq<char>,
    s: Seq<VenueMarket>,
    venues: Seq<VenueAccountSnapshot>,
)
    requires
        held_exactly(venues, s),
        s.len() >= 2,
        forall|k: int| 0 <= k < s.len() ==> (#[trigger] s[k]).min_qty.units() >= 0,
        net_of(holdings(venues, s)->Ok_0)->Ok_0.valid(),
    ensures
        ({
            let net = units_in_all(venues, s);
            let qs = holdings(venues, s)->Ok_0;
            let reported = exposure_of(id, s, venues);
            let counts = forall|k: int|
                0 <= k < s.len() ==> magnitude(net) > (#[trigger] s[k]).min_qty.units();
            &&& reported is Ok
            &&& reported->Ok_0 is Some <==> counts
            &&& reported->Ok_0 matches Some(n) ==> {
                &&& n.pair_id == id
                &&& n.qty.units() == net
                &&& n.source == NakedSource::Foreign
                &&& exists|main: int, other: int|
                    0 <= main < s.len() && 0 <= other < s.len() && main != other && n.venue
                        == #[trigger] s[main].venue.0@ && n.counterparty == #[trigger] s[other].venue.0@
                        && (qs[main].units() > 0 <==> net > 0) && (forall|i: int|
                        0 <= i < s.len() && (#[trigger] qs[i]).units() != 0 && (qs[i].units() > 0
                            <==> net > 0) ==> dabs(qs[i]).units() <= dabs(qs[main]).units())
                        && forall|i: int|
                        0 <= i < s.len() && i != main ==> dabs(#[trigger] qs[i]).units() >= dabs(
                            qs[other],
                        ).units()
            }
        }),
{
    broadcast use lemma_lit, lemma_sign;

    let qs = holdings(venues, s)->Ok_0;
    lemma_holdings_units(venues, s);
    lemma_net(qs);
    lemma_running_sum(qs);
    let net = net_of(qs)->Ok_0;
    lemma_size(net);
    lemma_main(qs, net);
    let main = main_at(qs, net);
    lemma_other(qs, main);
    let other = other_at(qs, main);
    lemma_tolerance(s);
    lemma_some_on_the_side(qs);
    let top = choose|k: int| 0 <= k < s.len() && (#[trigger] s[k]).min_qty == tolerance(s);
    if dabs(net).units() > tolerance(s).units() {
        assert(main >= 0) by {
            if net.units() > 0 {
                let i = choose|i: int| 0 <= i < qs.len() && (#[trigger] qs[i]).units() > 0;
                assert(on_side(qs[i], net));
            } else {
                let i = choose|i: int| 0 <= i < qs.len() && (#[trigger] qs[i]).units() < 0;
                assert(on_side(qs[i], net));
            }
        }
        assert(other >= 0);
        assert(exposure_of(id, s, venues)->Ok_0->0.venue == s[main].venue.0@);
        assert(exposure_of(id, s, venues)->Ok_0->0.counterparty == s[other].venue.0@);
        assert forall|i: int|
            0 <= i < s.len() && (#[trigger] qs[i]).units() != 0 && (qs[i].units() > 0
                <==> net.units() > 0) implies dabs(qs[i]).units() <= dabs(qs[main]).units() by {
            assert(on_side(qs[i], net));
        }
    }
}

/// Every report is what stands open on the markets of its coin, and what stands open on the
/// markets of a coin is reported.
pub proof fn law_every_report_is_of_its_coin(
    ids: Seq<String>,
    pairs: Seq<Pair>,
    venues: Seq<VenueAccountSnapshot>,
)
    requires
        exposures(ids, pairs, venues) is Ok,
    ensures
        ({
            let v = exposures(ids, pairs, venues)->Ok_0;
            &&& forall|i: int|
                0 <= i < v.len() ==> exposure_of(
                    (#[trigger] v[i]).pair_id,
                    markets_of(pairs, v[i].pair_id),
                    venues,
                ) == Ok::<Option<NakedModel>, ArithError>(Some(v[i]))
            &&& forall|k: int|
                0 <= k < ids.len() ==> (exposure_of(
                    (#[trigger] ids[k])@,
                    markets_of(pairs, ids[k]@),
                    venues,
                ) matches Ok(Some(n)) ==> v.contains(n))
        }),
    decreases ids.len(),
{
    if ids.len() > 0 {
        let rest = ids.drop_last();
        law_every_report_is_of_its_coin(rest, pairs, venues);
        let v = exposures(ids, pairs, venues)->Ok_0;
        let init = exposures(rest, pairs, venues)->Ok_0;
        assert forall|k: int| 0 <= k < ids.len() implies (exposure_of(
            (#[trigger] ids[k])@,
            markets_of(pairs, ids[k]@),
            venues,
        ) matches Ok(Some(n)) ==> v.contains(n)) by {
            if k < rest.len() {
                assert(rest[k] == ids[k]);
                if let Ok(Some(n)) = exposure_of(ids[k]@, markets_of(pairs, ids[k]@), venues) {
                    let j = choose|j: int| 0 <= j < init.len() && init[j] == n;
                    assert(v[j] == n);
                }
            } else {
                if let Ok(Some(n)) = exposure_of(ids[k]@, markets_of(pairs, ids[k]@), venues) {
                    assert(v[v.len() - 1] == n);
                }
            }
        }
        assert forall|i: int| 0 <= i < v.len() implies exposure_of(
            (#[trigger] v[i]).pair_id,
            markets_of(pairs, v[i].pair_id),
            venues,
        ) == Ok::<Option<NakedModel>, ArithError>(Some(v[i])) by {
            if i < init.len() {
                assert(v[i] == init[i]);
            }
        }
    }
}

/// What two legs hold on opposite sides counts as far as both hold it. Memory agrees with that
/// where it is no further off than the smallest quantity; else both are told. One leg alone
/// says nothing, and two legs on the same side hedge nothing.
pub proof fn law_memory_is_held_against_what_both_legs_hold(
    a: Decimal,
    b: Decimal,
    tol: Decimal,
    memory: Decimal,
)
    requires
        a.valid(),
        b.valid(),
        subtracts_exactly(Ok(memory), Ok(dmin(dabs(a), dabs(b)))),
        diff(Ok(memory), Ok(dmin(dabs(a), dabs(b))))->Ok_0.valid(),
    ensures
        ({
            let r = audited(a, b, tol, memory);
            let x = a.units();
            let y = b.units();
            let both = if magnitude(x) <= magnitude(y) {
                magnitude(x)
            } else {
                magnitude(y)
            };
            let alone = (x == 0 && y != 0) || (x != 0 && y == 0);
            let aside = (x > 0 && y > 0) || (x < 0 && y < 0);
            &&& r is Ok
            &&& alone ==> r->Ok_0 is None
            &&& aside ==> (r->Ok_0 matches Some((m, h)) && m == memory && h.units() == 0)
            &&& !alone && !aside ==> if magnitude(memory.units() - both) <= tol.units() {
                r->Ok_0 is None
            } else {
                r->Ok_0 matches Some((m, h)) && m == memory && h.units() == both
            }
        }),
{
    broadcast use lemma_lit, lemma_sign;

    lemma_size(a);
    lemma_size(b);
    lemma_size(diff(Ok(memory), Ok(dmin(dabs(a), dabs(b))))->Ok_0);
}

/// The overlap of two legs on opposite sides: as much as the smaller holds, bought on the venue
/// that holds long and sold on the one that holds short, each at its own price.
pub proof fn law_overlap_is_bought_where_the_long_is(
    h: OppositeHedge,
    pair: Pair,
    a: (Decimal, Decimal),
    b: (Decimal, Decimal),
)
    requires
        (a.0).valid(),
        (b.0).valid(),
        opposed(a.0, b.0),
        is_overlap(h, pair, a, b),
    ensures
        h.qty.units() > 0,
        h.qty.units() <= magnitude((a.0).units()),
        h.qty.units() <= magnitude((b.0).units()),
        h.qty.units() == magnitude((a.0).units()) || h.qty.units() == magnitude((b.0).units()),
        (a.0).units() > 0 ==> (b.0).units() < 0 && h.buy@ == pair.legs@[0].venue.0@ && h.sell@
            == pair.legs@[1].venue.0@ && h.buy_px == a.1 && h.sell_px == b.1,
        (a.0).units() < 0 ==> (b.0).units() > 0 && h.buy@ == pair.legs@[1].venue.0@ && h.sell@
            == pair.legs@[0].venue.0@ && h.buy_px == b.1 && h.sell_px == a.1,
{
    lemma_size(a.0);
    lemma_size(b.0);
}

/// A quantity makes the nearest whole number of steps, at least one and at most so many: as
/// many as it is a multiple of the quantity of a step.
pub proof fn law_steps_are_the_nearest_number(qty: Decimal, base_qty: Decimal, max_step: int)
    requires
        1 <= max_step <= i32::MAX,
        base_qty.units() > 0,
        divides_exactly(Ok(qty), Ok(base_qty)),
        quot(Ok(qty), Ok(base_qty))->Ok_0.valid(),
    ensures
        ({
            let k = steps_in(dround(quot(Ok(qty), Ok(base_qty))->Ok_0, 0), max_step);
            &&& 1 <= k <= max_step
            &&& 1 < k < max_step ==> 2 * magnitude(k * base_qty.units() - qty.units())
                <= base_qty.units()
            &&& forall|n: int|
                1 <= n <= max_step && qty.units() == #[trigger] (n * base_qty.units()) ==> k == n
        }),
{
    lemma_whole();
    let q = quot(Ok(qty), Ok(base_qty))->Ok_0;
    lemma_rounded_whole(q);
    let m = dround(q, 0).mant();
    let w = whole();
    let b = base_qty.units();
    let x = qty.units();
    let y = q.units();
    let k = steps_in(dround(q, 0), max_step);
    if k == m {
        assert(2 * magnitude(k * b - x) <= b) by (nonlinear_arith)
            requires
                2 * magnitude(k * w - y) <= w,
                y * b == x * w,
                w > 0,
                b > 0,
        ;
    }
    assert forall|n: int| 1 <= n <= max_step && x == #[trigger] (n * b) implies k == n by {
        assert(y == n * w) by (nonlinear_arith)
            requires
                y * b == x * w,
                x == n * b,
                b > 0,
        ;
        assert(m == n) by (nonlinear_arith)
            requires
                2 * magnitude(m * w - y) <= w,
                y == n * w,
                w > 0,
        ;
    }
}

} // verus!
