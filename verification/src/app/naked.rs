//! Coins that stand open on one side, and what is done about them.

use crate::app::balance::{all_answered, VenueAccountCache, VenueAccountSnapshot};
use crate::app::intervention::{resumed, waits_on, GuardModel, InterventionGuard};
use crate::app::reconcile::{
    counterparty_hedge_is_buy, hedge_qty, naked_model, NakedExposure, NakedModel, NakedSource,
};
use crate::app::risk::{books_tradable, tradable};
use crate::clock::Instant;
use crate::config::AppConfig;
use crate::decimal::{dabs, dneg, lemma_size, lemma_turned, ArithError, Decimal};
use crate::domain::book::{read_book, BookMap};
use crate::domain::symbol::{Pair, VenueMarket};
use crate::keymap::KeySet;
use crate::text::{contains, first_at, has_part, joined, same, split_once};
use vstd::prelude::*;

verus! {

pub open spec fn naked_models(s: Seq<NakedExposure>) -> Seq<NakedModel> {
    s.map_values(|n: NakedExposure| naked_model(n))
}

impl Clone for NakedExposure {
    fn clone(&self) -> (r: NakedExposure)
        ensures
            naked_model(r) == naked_model(*self),
    {
        NakedExposure {
            pair_id: self.pair_id.clone(),
            venue: self.venue.clone(),
            qty: self.qty,
            counterparty: self.counterparty.clone(),
            source: self.source,
        }
    }
}

/// Which exposures stay.
pub enum Keep {
    /// Those of other coins.
    NotPair(String),
    /// All but the one of a failed order that was made up for.
    NotHedged(String, String),
    /// Those that failed orders left behind.
    BotFailures,
    /// The others.
    NotBotFailures,
}

pub open spec fn stays(k: Keep, n: NakedModel) -> bool {
    match k {
        Keep::NotPair(pair) => n.pair_id != pair@,
        Keep::NotHedged(pair, venue) => n.source != NakedSource::BotFailure || n.pair_id != pair@
            || n.venue != venue@,
        Keep::BotFailures => n.source == NakedSource::BotFailure,
        Keep::NotBotFailures => n.source != NakedSource::BotFailure,
    }
}

pub open spec fn kept_of(s: Seq<NakedExposure>, k: Keep) -> Seq<NakedModel>
    decreases s.len(),
{
    if s.len() == 0 {
        Seq::empty()
    } else {
        let init = kept_of(s.drop_last(), k);
        if stays(k, naked_model(s.last())) {
            init.push(naked_model(s.last()))
        } else {
            init
        }
    }
}

fn keeps(k: &Keep, n: &NakedExposure) -> (r: bool)
    ensures
        r == stays(*k, naked_model(*n)),
{
    match k {
        Keep::NotPair(pair) => !same(n.pair_id.as_str(), pair.as_str()),
        Keep::NotHedged(pair, venue) => n.source != NakedSource::BotFailure || !same(
            n.pair_id.as_str(),
            pair.as_str(),
        ) || !same(n.venue.as_str(), venue.as_str()),
        Keep::BotFailures => n.source == NakedSource::BotFailure,
        Keep::NotBotFailures => n.source != NakedSource::BotFailure,
    }
}

/// Drops the exposures that do not stay.
pub fn retain(list: &mut Vec<NakedExposure>, k: &Keep)
    ensures
        naked_models(final(list)@) == kept_of(old(list)@, *k),
{
    let mut out: Vec<NakedExposure> = Vec::new();
    let ghost all = list@;
    let mut i: usize = 0;
    proof {
        assert(all.take(0) =~= Seq::empty());
        assert(naked_models(out@) =~= Seq::empty());
    }
    while i < list.len()
        invariant
            list@ == all,
            i <= all.len(),
            naked_models(out@) == kept_of(all.take(i as int), *k),
        decreases list.len() - i,
    {
        let ghost before = out@;
        proof {
            assert(all.take(i + 1).drop_last() =~= all.take(i as int));
        }
        if keeps(k, &list[i]) {
            out.push(list[i].clone());
            proof {
                assert(naked_models(out@) =~= naked_models(before).push(
                    naked_model(all[i as int]),
                ));
            }
        }
        i = i + 1;
    }
    proof {
        assert(all.take(i as int) =~= all);
    }
    *list = out;
}

/// The exposures that failed orders left behind, and what the venues now hold.
pub fn take_foreign(list: &mut Vec<NakedExposure>, foreign: &Vec<NakedExposure>)
    ensures
        naked_models(final(list)@) == kept_of(old(list)@, Keep::BotFailures) + naked_models(
            foreign@,
        ),
{
    retain(list, &Keep::BotFailures);
    let ghost start = naked_models(list@);
    let mut i: usize = 0;
    proof {
        assert(naked_models(list@) =~= start + naked_models(foreign@).take(0));
    }
    while i < foreign.len()
        invariant
            i <= foreign@.len(),
            naked_models(list@) == start + naked_models(foreign@).take(i as int),
        decreases foreign.len() - i,
    {
        let ghost before = list@;
        list.push(foreign[i].clone());
        proof {
            assert(naked_models(list@) =~= naked_models(before).push(
                naked_model(foreign@[i as int]),
            ));
            assert(naked_models(list@) =~= start + naked_models(foreign@).take(i + 1));
        }
        i = i + 1;
    }
    proof {
        assert(naked_models(foreign@).take(i as int) =~= naked_models(foreign@));
    }
}

/// An exposure of a coin on a venue is in the list.
pub open spec fn has_naked(s: Seq<NakedExposure>, pair: Seq<char>, venue: Seq<char>) -> bool {
    exists|i: int|
        0 <= i < s.len() && (#[trigger] s[i]).pair_id@ == pair && s[i].venue@ == venue
}

fn holds_naked(list: &Vec<NakedExposure>, pair_id: &str, venue: &str) -> (r: bool)
    ensures
        r == has_naked(list@, pair_id@, venue@),
{
    let mut i: usize = 0;
    while i < list.len()
        invariant
            i <= list@.len(),
            forall|j: int|
                0 <= j < i ==> !((#[trigger] list@[j]).pair_id@ == pair_id@ && list@[j].venue@
                    == venue@),
        decreases list.len() - i,
    {
        if same(list[i].pair_id.as_str(), pair_id) && same(list[i].venue.as_str(), venue) {
            return true;
        }
        i = i + 1;
    }
    false
}

/// The exposures of a list that stay.
pub open spec fn kept_models(s: Seq<NakedModel>, k: Keep) -> Seq<NakedModel> {
    s.filter(|n: NakedModel| stays(k, n))
}

/// An exposure of a coin on a venue is among these.
pub open spec fn has_model(s: Seq<NakedModel>, pair: Seq<char>, venue: Seq<char>) -> bool {
    exists|i: int| 0 <= i < s.len() && (#[trigger] s[i]).pair_id == pair && s[i].venue == venue
}

/// What is kept and what is there can be told from the models alone.
pub proof fn lemma_naked_models(s: Seq<NakedExposure>, k: Keep, pair: Seq<char>, venue: Seq<char>)
    ensures
        kept_of(s, k) == kept_models(naked_models(s), k),
        has_naked(s, pair, venue) == has_model(naked_models(s), pair, venue),
    decreases s.len(),
{
    let m = naked_models(s);
    if has_naked(s, pair, venue) {
        let i = choose|i: int|
            0 <= i < s.len() && (#[trigger] s[i]).pair_id@ == pair && s[i].venue@ == venue;
        assert(m[i].pair_id == pair && m[i].venue == venue);
    }
    if has_model(m, pair, venue) {
        let i = choose|i: int|
            0 <= i < m.len() && (#[trigger] m[i]).pair_id == pair && m[i].venue == venue;
        assert(s[i].pair_id@ == pair && s[i].venue@ == venue);
    }
    let keep = |n: NakedModel| stays(k, n);
    if s.len() == 0 {
        assert(m.filter(keep) =~= Seq::empty()) by {
            reveal(Seq::filter);
        }
    } else {
        lemma_naked_models(s.drop_last(), k, pair, venue);
        assert(m.drop_last() =~= naked_models(s.drop_last()));
        assert(m.last() == naked_model(s.last()));
        reveal(Seq::filter);
    }
}

/// What an order left open, signed by its side.
pub open spec fn signed(is_buy: bool, qty: Decimal) -> Decimal {
    if is_buy {
        qty
    } else {
        dneg(qty)
    }
}

/// Puts down what the first leg of a failed order left open, once for a coin on
/// a venue. Says whether it did.
pub fn record_naked_from_failed_hedge(
    list: &mut Vec<NakedExposure>,
    pair_id: &str,
    venue: &str,
    counterparty: &str,
    is_buy: bool,
    first_qty: Decimal,
) -> (r: bool)
    ensures
        r == (first_qty.units() > 0 && !has_naked(old(list)@, pair_id@, venue@)),
        naked_models(final(list)@) == (if r {
            naked_models(old(list)@).push(
                NakedModel {
                    pair_id: pair_id@,
                    venue: venue@,
                    qty: signed(is_buy, first_qty),
                    counterparty: counterparty@,
                    source: NakedSource::BotFailure,
                },
            )
        } else {
            naked_models(old(list)@)
        }),
{
    if !first_qty.is_positive() || holds_naked(list, pair_id, venue) {
        return false;
    }
    let qty = if is_buy {
        first_qty
    } else {
        first_qty.neg()
    };
    put(list, pair_id, venue, qty, counterparty, NakedSource::BotFailure);
    true
}

/// Puts down a leg of which it is not known whether it was filled. It is not
/// hedged on its own.
pub fn record_unknown_naked(
    list: &mut Vec<NakedExposure>,
    pair_id: &str,
    venue: &str,
    signed_qty: Decimal,
    counterparty: &str,
) -> (r: bool)
    ensures
        r == (signed_qty.units() != 0 && !has_naked(old(list)@, pair_id@, venue@)),
        naked_models(final(list)@) == (if r {
            naked_models(old(list)@).push(
                NakedModel {
                    pair_id: pair_id@,
                    venue: venue@,
                    qty: signed_qty,
                    counterparty: counterparty@,
                    source: NakedSource::SecondLegUnknown,
                },
            )
        } else {
            naked_models(old(list)@)
        }),
{
    if signed_qty.is_zero() || holds_naked(list, pair_id, venue) {
        return false;
    }
    put(list, pair_id, venue, signed_qty, counterparty, NakedSource::SecondLegUnknown);
    true
}

fn put(
    list: &mut Vec<NakedExposure>,
    pair_id: &str,
    venue: &str,
    qty: Decimal,
    counterparty: &str,
    source: NakedSource,
)
    ensures
        naked_models(final(list)@) == naked_models(old(list)@).push(
            NakedModel {
                pair_id: pair_id@,
                venue: venue@,
                qty,
                counterparty: counterparty@,
                source,
            },
        ),
{
    let ghost before = list@;
    let n = NakedExposure {
        pair_id: pair_id.to_owned(),
        venue: venue.to_owned(),
        qty,
        counterparty: counterparty.to_owned(),
        source,
    };
    let ghost m = naked_model(n);
    list.push(n);
    proof {
        assert(naked_models(list@) =~= naked_models(before).push(m));
    }
}

/// A coin stands open on one side.
pub fn pair_has_naked(list: &Vec<NakedExposure>, pair_id: &str) -> (r: bool)
    ensures
        r == exists|i: int|
            0 <= i < list@.len() && (#[trigger] list@[i]).pair_id@ == pair_id@ && dabs(
                list@[i].qty,
            ).units() > 0,
{
    let mut i: usize = 0;
    while i < list.len()
        invariant
            i <= list@.len(),
            forall|j: int|
                0 <= j < i ==> !((#[trigger] list@[j]).pair_id@ == pair_id@ && dabs(
                    list@[j].qty,
                ).units() > 0),
        decreases list.len() - i,
    {
        if same(list[i].pair_id.as_str(), pair_id) && list[i].qty.abs().is_positive() {
            return true;
        }
        i = i + 1;
    }
    false
}

/// The key of an exposure while it is being hedged.
pub open spec fn naked_text(pair: Seq<char>, venue: Seq<char>) -> Seq<char> {
    pair + "|"@ + venue
}

pub fn naked_key(n: &NakedExposure) -> (r: String)
    ensures
        r@ == naked_text(n.pair_id@, n.venue@),
{
    joined(joined(n.pair_id.as_str(), "|").as_str(), n.venue.as_str())
}

/// The coin that a key names.
pub open spec fn coin_of_key(key: Seq<char>) -> Seq<char> {
    key.take(first_at(key, '|'))
}

/// A hedge for the coin is under way.
pub fn pair_naked_inflight(hedging: &KeySet, pair_id: &str) -> (r: bool)
    ensures
        r == exists|k: Seq<char>| #[trigger]
            hedging@.contains_key(k) && coin_of_key(k) == pair_id@,
{
    let n = hedging.len();
    let ghost ks = hedging.keys();
    let mut i: usize = 0;
    while i < n
        invariant
            ks == hedging.keys(),
            n == ks.len(),
            hedging@.dom() == ks.to_set(),
            i <= n,
            forall|j: int| 0 <= j < i ==> coin_of_key(#[trigger] ks[j]) != pair_id@,
        decreases n - i,
    {
        let key = hedging.key(i);
        let hit = match split_once(key.as_str(), '|') {
            Some((a, _)) => same(a, pair_id),
            None => {
                proof {
                    assert(key@.take(first_at(key@, '|')) =~= key@);
                }
                same(key.as_str(), pair_id)
            },
        };
        if hit {
            proof {
                assert(ks.to_set().contains(ks[i as int]));
                assert(hedging@.contains_key(ks[i as int]));
            }
            return true;
        }
        i = i + 1;
    }
    proof {
        assert forall|k: Seq<char>| #[trigger] hedging@.contains_key(k) implies coin_of_key(k)
            != pair_id@ by {
            assert(ks.to_set().contains(k));
            let j = choose|j: int| 0 <= j < ks.len() && ks[j] == k;
            assert(coin_of_key(ks[j]) != pair_id@);
        }
    }
    false
}

// ---------------------------------------------------------------------------
// Hedging
// ---------------------------------------------------------------------------

/// The first exposure of a failed order that is not being hedged; the length
/// where there is none.
pub open spec fn first_failed(s: Seq<NakedExposure>, hedging: Set<Seq<char>>) -> int
    decreases s.len(),
{
    if s.len() == 0 || (s[0].source == NakedSource::BotFailure && !hedging.contains(
        naked_text(s[0].pair_id@, s[0].venue@),
    )) {
        0
    } else {
        1 + first_failed(s.drop_first(), hedging)
    }
}

fn find_failed(list: &Vec<NakedExposure>, hedging: &KeySet) -> (r: usize)
    ensures
        r == first_failed(list@, hedging@.dom()),
        r <= list@.len(),
{
    let mut i: usize = 0;
    proof {
        assert(list@.skip(0) =~= list@);
    }
    while i < list.len()
        invariant
            i <= list@.len(),
            first_failed(list@, hedging@.dom()) == i + first_failed(
                list@.skip(i as int),
                hedging@.dom(),
            ),
        decreases list.len() - i,
    {
        if list[i].source == NakedSource::BotFailure && !hedging.contains(
            naked_key(&list[i]).as_str(),
        ) {
            return i;
        }
        proof {
            assert(list@.skip(i as int).drop_first() =~= list@.skip(i + 1));
        }
        i = i + 1;
    }
    i
}

/// A pair trades a coin on a venue.
pub open spec fn trades_on(p: Pair, venue: Seq<char>) -> bool {
    p.legs@[0].venue.0@ == venue || p.legs@[1].venue.0@ == venue
}

/// The market of a pair on a venue.
pub open spec fn leg_on(p: Pair, venue: Seq<char>) -> VenueMarket {
    if p.legs@[0].venue.0@ == venue {
        p.legs@[0]
    } else {
        p.legs@[1]
    }
}

/// The first pair of an exposure's coin on both its venues; the length where
/// there is none.
pub open spec fn pair_for(pairs: Seq<Pair>, n: NakedModel) -> int
    decreases pairs.len(),
{
    if pairs.len() == 0 || (pairs[0].pair_id@ == n.pair_id && trades_on(pairs[0], n.counterparty)
        && trades_on(pairs[0], n.venue)) {
        0
    } else {
        1 + pair_for(pairs.drop_first(), n)
    }
}

fn find_pair(pairs: &Vec<Pair>, n: &NakedExposure) -> (r: usize)
    ensures
        r == pair_for(pairs@, naked_model(*n)),
        r <= pairs@.len(),
        r < pairs@.len() ==> trades_on(pairs@[r as int], n.counterparty@),
{
    let mut i: usize = 0;
    proof {
        assert(pairs@.skip(0) =~= pairs@);
    }
    while i < pairs.len()
        invariant
            i <= pairs@.len(),
            pair_for(pairs@, naked_model(*n)) == i + pair_for(
                pairs@.skip(i as int),
                naked_model(*n),
            ),
        decreases pairs.len() - i,
    {
        if same(pairs[i].pair_id.as_str(), n.pair_id.as_str()) && pairs[i].leg(
            n.counterparty.as_str(),
        ).is_some() && pairs[i].leg(n.venue.as_str()).is_some() {
            return i;
        }
        proof {
            assert(pairs@.skip(i as int).drop_first() =~= pairs@.skip(i + 1));
        }
        i = i + 1;
    }
    i
}

/// The order that closes the gap.
#[derive(Debug)]
pub struct NakedOrder {
    pub pair_id: String,
    pub venue: String,
    pub counterparty: String,
    pub symbol: String,
    pub market_index: i32,
    pub is_buy: bool,
    pub qty: Decimal,
    pub min_qty: Decimal,
}

/// `o` closes the gap of an exposure on a market of the other venue.
pub open spec fn closes_gap(o: NakedOrder, n: NakedModel, leg: VenueMarket) -> bool {
    &&& o.pair_id@ == n.pair_id
    &&& o.venue@ == n.venue
    &&& o.counterparty@ == n.counterparty
    &&& o.symbol@ == leg.raw_symbol@
    &&& o.market_index == leg.market_index
    &&& o.is_buy == (n.qty.units() < 0)
    &&& o.qty == dabs(n.qty)
    &&& o.min_qty == leg.min_qty
}

/// Gaps are closed at all: trading is on, it is configured, there is one, and
/// every venue answered.
pub open spec fn hedges_gaps(
    enabled: bool,
    cfg: AppConfig,
    list: Seq<NakedExposure>,
    accounts: Seq<VenueAccountSnapshot>,
) -> bool {
    enabled && cfg.execution.hedge_failed_legs && list.len() > 0 && all_answered(accounts)
}

/// The gap that is closed next and the pair on which it is, if one is: not while
/// its pair waits for a person, while an order of its slot is under way, while
/// its books cannot be traded, or where it is too small to be ordered.
pub open spec fn next_gap(
    cfg: AppConfig,
    list: Seq<NakedExposure>,
    busy: Set<Seq<char>>,
    guard: GuardModel,
    pairs: Seq<Pair>,
    pending: Set<Seq<char>>,
    placing: Set<Seq<char>>,
    books: BookMap,
    book_floor: Decimal,
    now: Instant,
) -> Result<Option<(NakedModel, Pair)>, ArithError> {
    let i = first_failed(list, busy);
    if i >= list.len() {
        Ok(None)
    } else {
        let n = naked_model(list[i]);
        let k = pair_for(pairs, n);
        if waits_on(guard, n.pair_id, None, now) || k >= pairs.len() {
            Ok(None)
        } else {
            let p = pairs[k];
            let b0 = books.at(p.legs@[0].venue.0@, p.pair_id@);
            let b1 = books.at(p.legs@[1].venue.0@, p.pair_id@);
            if pending.contains(p.slot()) || placing.contains(p.slot()) || b0 is None || b1 is None {
                Ok(None)
            } else {
                match tradable(cfg, p, b0->0, b1->0, book_floor, dabs(n.qty), now) {
                    Err(e) => Err(e),
                    Ok(Some(_)) => Ok(None),
                    Ok(None) => if dabs(n.qty).units() < leg_on(p, n.counterparty).min_qty.units() {
                        Ok(None)
                    } else {
                        Ok(Some((n, p)))
                    },
                }
            }
        }
    }
}

/// The order that closes the next gap. Asking may end the wait of its pair; an
/// order that is given is noted as under way.
pub fn next_naked_hedge(
    enabled: bool,
    cfg: &AppConfig,
    list: &Vec<NakedExposure>,
    busy: &mut KeySet,
    accounts: &VenueAccountCache,
    guard: &mut InterventionGuard,
    pairs: &Vec<Pair>,
    pending: &KeySet,
    placing: &KeySet,
    books: &BookMap,
    book_floor: Decimal,
    now: Instant,
) -> (r: Result<Option<NakedOrder>, ArithError>)
    ensures
        ({
            let i = first_failed(list@, old(busy)@.dom());
            let asked = hedges_gaps(enabled, *cfg, list@, accounts.venues@) && i < list@.len();
            let m = old(guard)@;
            let resumes = asked && m.pairs.contains_key(list@[i].pair_id@) && !waits_on(
                m,
                list@[i].pair_id@,
                None,
                now,
            );
            final(guard)@ == (if resumes {
                resumed(m, list@[i].pair_id@)
            } else {
                m
            })
        }),
        !hedges_gaps(enabled, *cfg, list@, accounts.venues@) ==> (r matches Ok(None)),
        hedges_gaps(enabled, *cfg, list@, accounts.venues@) ==> match next_gap(
            *cfg,
            list@,
            old(busy)@.dom(),
            old(guard)@,
            pairs@,
            pending@.dom(),
            placing@.dom(),
            *books,
            book_floor,
            now,
        ) {
            Err(_) => r is Err,
            Ok(None) => r matches Ok(None),
            Ok(Some((n, p))) => r matches Ok(Some(o)) && closes_gap(o, n, leg_on(p, n.counterparty)),
        },
        final(busy)@ == (match r {
            Ok(Some(o)) => old(busy)@.insert(naked_text(o.pair_id@, o.venue@), ()),
            _ => old(busy)@,
        }),
{
    if !enabled || !cfg.execution.hedge_failed_legs || list.len() == 0 || !accounts.all_fresh() {
        return Ok(None);
    }
    let i = find_failed(list, busy);
    if i >= list.len() {
        return Ok(None);
    }
    let naked = &list[i];
    if guard.should_block(naked.pair_id.as_str(), None, now).blocked() {
        return Ok(None);
    }
    let k = find_pair(pairs, naked);
    if k >= pairs.len() {
        return Ok(None);
    }
    let pair = &pairs[k];
    let slot = pair.slot_key();
    if pending.contains(slot.as_str()) || placing.contains(slot.as_str()) {
        return Ok(None);
    }
    let left = read_book(books, pair.legs[0].venue.as_str(), pair.pair_id.as_str());
    let right = read_book(books, pair.legs[1].venue.as_str(), pair.pair_id.as_str());
    let (b0, b1) = match (left, right) {
        (Some(a), Some(b)) => (a, b),
        _ => {
            return Ok(None);
        },
    };
    let qty = hedge_qty(naked.qty);
    match books_tradable(cfg, pair, b0, b1, book_floor, qty, now)? {
        Err(_) => {
            return Ok(None);
        },
        Ok(_) => {},
    }
    let leg = match pair.leg(naked.counterparty.as_str()) {
        None => {
            return Ok(None);
        },
        Some(l) => l,
    };
    if qty < leg.min_qty {
        return Ok(None);
    }
    busy.insert(naked_key(naked).as_str(), ());
    Ok(
        Some(
            NakedOrder {
                pair_id: naked.pair_id.clone(),
                venue: naked.venue.clone(),
                counterparty: naked.counterparty.clone(),
                symbol: leg.raw_symbol.clone(),
                market_index: leg.market_index,
                is_buy: counterparty_hedge_is_buy(naked.qty),
                qty,
                min_qty: leg.min_qty,
            },
        ),
    )
}

/// An exposure of which the hedge cannot be told.
pub open spec fn unknown_of(s: Seq<NakedExposure>, pair: Seq<char>, venue: Seq<char>) -> Seq<
    NakedModel,
> {
    s.map_values(
        |n: NakedExposure|
            if n.pair_id@ == pair && n.venue@ == venue && n.source == NakedSource::BotFailure {
                NakedModel { source: NakedSource::SecondLegUnknown, ..naked_model(n) }
            } else {
                naked_model(n)
            },
    )
}

fn mark_unknown(list: &mut Vec<NakedExposure>, pair_id: &str, venue: &str)
    ensures
        naked_models(final(list)@) == unknown_of(old(list)@, pair_id@, venue@),
{
    let ghost all = list@;
    let ghost goal = unknown_of(all, pair_id@, venue@);
    let mut out: Vec<NakedExposure> = Vec::new();
    let mut i: usize = 0;
    while i < list.len()
        invariant
            list@ == all,
            i <= all.len(),
            out@.len() == i,
            goal == unknown_of(all, pair_id@, venue@),
            forall|j: int| 0 <= j < i ==> naked_model(#[trigger] out@[j]) == goal[j],
        decreases list.len() - i,
    {
        let mut n = list[i].clone();
        if same(n.pair_id.as_str(), pair_id) && same(n.venue.as_str(), venue) && n.source
            == NakedSource::BotFailure {
            n.source = NakedSource::SecondLegUnknown;
        }
        out.push(n);
        i = i + 1;
    }
    proof {
        assert(naked_models(out@) =~= goal);
    }
    *list = out;
}

/// Takes the end of a hedge in: a gap that was closed is dropped; one of which it
/// cannot be told is not tried again, and its pair must wait for a person. Says
/// whether it must.
pub fn on_naked_hedge(
    list: &mut Vec<NakedExposure>,
    busy: &mut KeySet,
    key: &str,
    pair_id: &str,
    venue: &str,
    error: Option<&str>,
) -> (r: bool)
    ensures
        final(busy)@ == old(busy)@.remove(key@),
        r == (error is Some && has_part(error->0@, "SECOND_LEG_UNKNOWN"@)),
        match error {
            None => exists|k: Keep|
                k matches Keep::NotHedged(p, v) && p@ == pair_id@ && v@ == venue@ && naked_models(
                    final(list)@,
                ) == #[trigger] kept_of(old(list)@, k),
            Some(_) => naked_models(final(list)@) == (if r {
                unknown_of(old(list)@, pair_id@, venue@)
            } else {
                naked_models(old(list)@)
            }),
        },
{
    busy.remove(key);
    match error {
        None => {
            let k = Keep::NotHedged(pair_id.to_owned(), venue.to_owned());
            retain(list, &k);
            false
        },
        Some(err) => {
            if contains(err, "SECOND_LEG_UNKNOWN") {
                mark_unknown(list, pair_id, venue);
                true
            } else {
                false
            }
        },
    }
}

// ---------------------------------------------------------------------------
// Laws
// ---------------------------------------------------------------------------

/// Only gaps that failed orders left behind are ever closed on their own: not
/// those that were there before, nor those of which it is not known whether they
/// are gaps.
pub proof fn law_only_failures_are_hedged(
    cfg: AppConfig,
    list: Seq<NakedExposure>,
    busy: Set<Seq<char>>,
    guard: GuardModel,
    pairs: Seq<Pair>,
    pending: Set<Seq<char>>,
    placing: Set<Seq<char>>,
    books: BookMap,
    book_floor: Decimal,
    now: Instant,
)
    ensures
        next_gap(cfg, list, busy, guard, pairs, pending, placing, books, book_floor, now) matches Ok(
            Some((n, p)),
        ) ==> n.source == NakedSource::BotFailure && !busy.contains(naked_text(n.pair_id, n.venue)),
{
    lemma_first_failed(list, busy);
}

proof fn lemma_first_failed(s: Seq<NakedExposure>, busy: Set<Seq<char>>)
    ensures
        0 <= first_failed(s, busy) <= s.len(),
        first_failed(s, busy) < s.len() ==> s[first_failed(s, busy)].source
            == NakedSource::BotFailure && !busy.contains(
            naked_text(s[first_failed(s, busy)].pair_id@, s[first_failed(s, busy)].venue@),
        ),
    decreases s.len(),
{
    if s.len() == 0 || (s[0].source == NakedSource::BotFailure && !busy.contains(
        naked_text(s[0].pair_id@, s[0].venue@),
    )) {
    } else {
        lemma_first_failed(s.drop_first(), busy);
    }
}

/// What an order leaves open counts for the side that it was on: above zero for a buy, below it
/// for a sell.
pub proof fn law_open_quantity_is_signed_by_its_side(qty: Decimal)
    requires
        qty.valid(),
    ensures
        signed(true, qty).units() == qty.units(),
        signed(false, qty).units() == -qty.units(),
{
    lemma_turned(qty);
}

/// The order that closes a gap is the opposite of it: with its quantity signed by its side, gap
/// and order together come to nothing. It goes to the other venue.
pub proof fn law_gap_and_order_come_to_nothing(o: NakedOrder, n: NakedModel, leg: VenueMarket)
    requires
        closes_gap(o, n, leg),
        n.qty.valid(),
        n.qty.units() != 0,
    ensures
        o.qty.units() > 0,
        n.qty.units() + (if o.is_buy {
            o.qty.units()
        } else {
            -o.qty.units()
        }) == 0,
        o.symbol@ == leg.raw_symbol@,
        o.counterparty@ == n.counterparty,
{
    lemma_size(n.qty);
}

/// A gap is closed only where its order can be placed: it is no smaller than the venue takes,
/// the books can be traded on, nothing of its pair is under way and no person has to look; and
/// the pair trades its coin on both its venues.
pub proof fn law_a_gap_is_closed_where_it_can_be(
    cfg: AppConfig,
    list: Seq<NakedExposure>,
    busy: Set<Seq<char>>,
    guard: GuardModel,
    pairs: Seq<Pair>,
    pending: Set<Seq<char>>,
    placing: Set<Seq<char>>,
    books: BookMap,
    book_floor: Decimal,
    now: Instant,
)
    ensures
        next_gap(cfg, list, busy, guard, pairs, pending, placing, books, book_floor, now) matches Ok(
            Some((n, p)),
        ) ==> {
            &&& dabs(n.qty).units() >= leg_on(p, n.counterparty).min_qty.units()
            &&& p.pair_id@ == n.pair_id
            &&& trades_on(p, n.venue) && trades_on(p, n.counterparty)
            &&& leg_on(p, n.counterparty).venue.0@ == n.counterparty
            &&& !pending.contains(p.slot()) && !placing.contains(p.slot())
            &&& !waits_on(guard, n.pair_id, None, now)
            &&& pairs.contains(p)
            &&& naked_models(list).contains(n)
            &&& books.at(p.legs@[0].venue.0@, p.pair_id@) matches Some(b0) && (books.at(
                p.legs@[1].venue.0@,
                p.pair_id@,
            ) matches Some(b1) && tradable(cfg, p, b0, b1, book_floor, dabs(n.qty), now) == Ok::<
                Option<Seq<char>>,
                ArithError,
            >(None))
        },
{
    lemma_first_failed(list, busy);
    let i = first_failed(list, busy);
    if i < list.len() {
        let n = naked_model(list[i]);
        lemma_pair_for(pairs, n);
        assert(naked_models(list)[i] == n);
    }
}

proof fn lemma_pair_for(pairs: Seq<Pair>, n: NakedModel)
    ensures
        0 <= pair_for(pairs, n) <= pairs.len(),
        pair_for(pairs, n) < pairs.len() ==> {
            let p = pairs[pair_for(pairs, n)];
            p.pair_id@ == n.pair_id && trades_on(p, n.counterparty) && trades_on(p, n.venue)
        },
    decreases pairs.len(),
{
    if !(pairs.len() == 0 || (pairs[0].pair_id@ == n.pair_id && trades_on(
        pairs[0],
        n.counterparty,
    ) && trades_on(pairs[0], n.venue))) {
        lemma_pair_for(pairs.drop_first(), n);
    }
}

/// A gap that was closed is dropped, and no other: those of other coins, of other venues and
/// those that no failed order left behind stay.
pub proof fn law_only_the_closed_gap_is_dropped(
    s: Seq<NakedExposure>,
    pair: String,
    venue: String,
    n: NakedModel,
)
    ensures
        kept_of(s, Keep::NotHedged(pair, venue)).contains(n) <==> naked_models(s).contains(n) && !(
        n.source == NakedSource::BotFailure && n.pair_id == pair@ && n.venue == venue@),
    decreases s.len(),
{
    let k = Keep::NotHedged(pair, venue);
    let m = naked_models(s);
    if s.len() > 0 {
        let t = s.drop_last();
        law_only_the_closed_gap_is_dropped(t, pair, venue, n);
        let init = kept_of(t, k);
        let l = naked_model(s.last());
        assert(m =~= naked_models(t).push(l));
        assert(naked_models(t).push(l).contains(n) <==> naked_models(t).contains(n) || n == l) by {
            let u = naked_models(t);
            if u.push(l).contains(n) {
                let i = choose|i: int| 0 <= i < u.len() + 1 && u.push(l)[i] == n;
                if i < u.len() {
                    assert(u[i] == n);
                }
            }
            if u.contains(n) {
                let i = choose|i: int| 0 <= i < u.len() && u[i] == n;
                assert(u.push(l)[i] == n);
            }
            assert(u.push(l)[u.len() as int] == l);
        }
        assert(init.push(l).contains(n) <==> init.contains(n) || n == l) by {
            if init.push(l).contains(n) {
                let i = choose|i: int| 0 <= i < init.len() + 1 && init.push(l)[i] == n;
                if i < init.len() {
                    assert(init[i] == n);
                }
            }
            if init.contains(n) {
                let i = choose|i: int| 0 <= i < init.len() && init[i] == n;
                assert(init.push(l)[i] == n);
            }
            assert(init.push(l)[init.len() as int] == l);
        }
    }
}

} // verus!
