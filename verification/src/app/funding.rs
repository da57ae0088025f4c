//! The venues' funding rates as last heard, and how long they have been against
//! a position.

use crate::clock::{elapsed, secs, Duration, Instant, NANOS_PER_SEC};
use crate::decimal::{ArithError, Decimal};
use crate::domain::funding::{funding_of, funding_view, FundingView, VenueFunding};
use crate::domain::symbol::VenueId;
use crate::exchange::port::FundingRate;
use crate::keymap::KeyMap;
use crate::text::{to_upper, trim, trimmed, unicode_upper};
use vstd::prelude::*;

verus! {

/// A rate and the length of its period.
pub type Rate = (Decimal, u32);

pub struct FundingCache {
    by_venue: KeyMap<KeyMap<Rate>>,
    last_refresh: Option<Instant>,
}

/// The rates of the venues and when they were heard.
pub struct FundingModel {
    pub rates: Map<Seq<char>, Map<Seq<char>, Rate>>,
    pub last_refresh: Option<Instant>,
}

impl FundingCache {
    pub closed spec fn known(self) -> FundingModel {
        FundingModel {
            rates: self.by_venue@.map_values(|m: KeyMap<Rate>| m@),
            last_refresh: self.last_refresh,
        }
    }
}

/// The name under which a symbol's rate is kept.
pub open spec fn rate_key(symbol: Seq<char>) -> Seq<char> {
    unicode_upper(trimmed(symbol))
}

/// The rate of a market; none where it was not heard.
pub open spec fn rate_of(m: FundingModel, venue: Seq<char>, symbol: Seq<char>) -> Option<Rate> {
    if m.rates.contains_key(venue) && m.rates[venue].contains_key(rate_key(symbol)) {
        Some(m.rates[venue][rate_key(symbol)])
    } else {
        None
    }
}

/// The rates of two legs side by side; none where one was not heard.
pub open spec fn view_of(
    m: FundingModel,
    buy: VenueId,
    buy_symbol: Seq<char>,
    sell: VenueId,
    sell_symbol: Seq<char>,
) -> Result<Option<FundingView>, ArithError> {
    match (rate_of(m, buy.0@, buy_symbol), rate_of(m, sell.0@, sell_symbol)) {
        (Some(b), Some(s)) => funding_of(
            VenueFunding { venue: buy, rate: b.0, interval_secs: b.1 },
            VenueFunding { venue: sell, rate: s.0, interval_secs: s.1 },
        ),
        _ => Ok(None),
    }
}

/// The rates of a list by symbol, the last of a symbol counting.
pub open spec fn table_of(rates: Seq<FundingRate>) -> Map<Seq<char>, Rate>
    decreases rates.len(),
{
    if rates.len() == 0 {
        Map::empty()
    } else {
        let r = rates.last();
        table_of(rates.drop_last()).insert(rate_key(r.symbol@), (r.rate, r.interval_secs))
    }
}

/// The rates of the venues that said something.
pub open spec fn tables_of(rows: Seq<(String, Vec<FundingRate>)>) -> Map<
    Seq<char>,
    Map<Seq<char>, Rate>,
>
    decreases rows.len(),
{
    if rows.len() == 0 {
        Map::empty()
    } else {
        let init = tables_of(rows.drop_last());
        let row = rows.last();
        if row.1@.len() == 0 {
            init
        } else {
            init.insert(row.0@, table_of(row.1@))
        }
    }
}

impl FundingCache {
    /// The rates are no older than `max_age`. Rates that were never heard are
    /// not.
    pub fn is_fresh(&self, max_age: Duration, now: Instant) -> (r: bool)
        ensures
            r == (self.known().last_refresh matches Some(t) && elapsed(now, t) <= max_age.nanos),
    {
        match self.last_refresh {
            Some(t) => now.since(t).nanos <= max_age.nanos,
            None => false,
        }
    }

    pub fn is_empty(&self) -> (r: bool)
        ensures
            r == (self.known().rates.dom() == Set::<Seq<char>>::empty()),
    {
        proof {
            assert(self.known().rates.dom() =~= self.by_venue@.dom());
            if self.by_venue@.dom() == Set::<Seq<char>>::empty() {
                assert(self.by_venue@ =~= Map::<Seq<char>, KeyMap<Rate>>::empty());
            }
        }
        self.by_venue.is_empty()
    }

    fn rate(&self, venue: &VenueId, symbol: &str) -> (r: Option<Rate>)
        ensures
            r == rate_of(self.known(), venue.0@, symbol@),
    {
        let key = to_upper(trim(symbol));
        match self.by_venue.get(venue.as_str()) {
            Some(m) => match m.get(key.as_str()) {
                Some(x) => Some(*x),
                None => None,
            },
            None => None,
        }
    }

    pub fn view(
        &self,
        buy: &VenueId,
        buy_symbol: &str,
        sell: &VenueId,
        sell_symbol: &str,
    ) -> (r: Result<Option<FundingView>, ArithError>)
        ensures
            r == view_of(self.known(), *buy, buy_symbol@, *sell, sell_symbol@),
    {
        let b = match self.rate(buy, buy_symbol) {
            None => {
                return Ok(None);
            },
            Some(x) => x,
        };
        let s = match self.rate(sell, sell_symbol) {
            None => {
                return Ok(None);
            },
            Some(x) => x,
        };
        funding_view(
            &VenueFunding { venue: buy.clone(), rate: b.0, interval_secs: b.1 },
            &VenueFunding { venue: sell.clone(), rate: s.0, interval_secs: s.1 },
        )
    }
}

impl Default for FundingCache {
    fn default() -> (r: FundingCache)
        ensures
            r.known().rates == Map::<Seq<char>, Map<Seq<char>, Rate>>::empty(),
            r.known().last_refresh is None,
    {
        let r = FundingCache { by_venue: KeyMap::new(), last_refresh: None };
        proof {
            assert(r.known().rates =~= Map::<Seq<char>, Map<Seq<char>, Rate>>::empty());
        }
        r
    }
}

fn table(rates: &Vec<FundingRate>) -> (r: KeyMap<Rate>)
    ensures
        r@ == table_of(rates@),
{
    let mut out: KeyMap<Rate> = KeyMap::new();
    let mut i: usize = 0;
    proof {
        assert(rates@.take(0) =~= Seq::empty());
    }
    while i < rates.len()
        invariant
            i <= rates@.len(),
            out@ == table_of(rates@.take(i as int)),
        decreases rates.len() - i,
    {
        let key = to_upper(trim(rates[i].symbol.as_str()));
        out.insert(key.as_str(), (rates[i].rate, rates[i].interval_secs));
        proof {
            assert(rates@.take(i + 1).drop_last() =~= rates@.take(i as int));
        }
        i = i + 1;
    }
    proof {
        assert(rates@.take(rates@.len() as int) =~= rates@);
    }
    out
}

/// Keeps what the venues said. A venue that said nothing is left out: its pairs
/// then have no rates, and the others keep theirs.
pub fn refresh_funding(rows: &Vec<(String, Vec<FundingRate>)>, now: Instant) -> (r: FundingCache)
    ensures
        r.known().rates == tables_of(rows@),
        r.known().last_refresh == Some(now),
{
    let mut by_venue: KeyMap<KeyMap<Rate>> = KeyMap::new();
    let mut i: usize = 0;
    proof {
        assert(rows@.take(0) =~= Seq::empty());
        assert(by_venue@.map_values(|m: KeyMap<Rate>| m@) =~= tables_of(rows@.take(0)));
    }
    while i < rows.len()
        invariant
            i <= rows@.len(),
            by_venue@.map_values(|m: KeyMap<Rate>| m@) == tables_of(rows@.take(i as int)),
        decreases rows.len() - i,
    {
        let ghost before = by_venue@;
        proof {
            assert(rows@.take(i + 1).drop_last() =~= rows@.take(i as int));
        }
        if rows[i].1.len() > 0 {
            by_venue.insert(rows[i].0.as_str(), table(&rows[i].1));
            proof {
                assert(by_venue@.map_values(|m: KeyMap<Rate>| m@) =~= before.map_values(
                    |m: KeyMap<Rate>| m@,
                ).insert(rows@[i as int].0@, table_of(rows@[i as int].1@)));
            }
        }
        i = i + 1;
    }
    proof {
        assert(rows@.take(rows@.len() as int) =~= rows@);
    }
    FundingCache { by_venue, last_refresh: Some(now) }
}

/// Since when funding has been against a slot.
pub struct UnfavorableTracker {
    since: KeyMap<Instant>,
}

impl View for UnfavorableTracker {
    type V = Map<Seq<char>, Instant>;

    closed spec fn view(&self) -> Map<Seq<char>, Instant> {
        self.since@
    }
}

/// Since when, with now for a slot that was not marked.
pub open spec fn since_when(m: Map<Seq<char>, Instant>, slot: Seq<char>, now: Instant) -> Instant {
    if m.contains_key(slot) {
        m[slot]
    } else {
        now
    }
}

impl UnfavorableTracker {
    pub fn new() -> (r: UnfavorableTracker)
        ensures
            r@ == Map::<Seq<char>, Instant>::empty(),
    {
        UnfavorableTracker { since: KeyMap::new() }
    }

    /// Marks a slot and says for how long it has been marked: not at all the
    /// first time.
    pub fn mark(&mut self, slot: &str, now: Instant) -> (r: Duration)
        ensures
            r.nanos == elapsed(now, since_when(old(self)@, slot@, now)),
            final(self)@ == old(self)@.insert(slot@, since_when(old(self)@, slot@, now)),
    {
        let start = match self.since.get(slot) {
            Some(t) => *t,
            None => now,
        };
        self.since.insert(slot, start);
        now.since(start)
    }

    /// Funding has turned: the clock starts anew.
    pub fn clear(&mut self, slot: &str)
        ensures
            final(self)@ == old(self)@.remove(slot@),
    {
        self.since.remove(slot);
    }

    pub fn is_marked(&self, slot: &str) -> (r: bool)
        ensures
            r == self@.contains_key(slot@),
    {
        self.since.contains(slot)
    }

    /// The slot has been marked for `minutes`. Zero minutes do not ask.
    pub fn sustained(&mut self, slot: &str, minutes: u64, now: Instant) -> (r: bool)
        ensures
            r == (elapsed(now, since_when(old(self)@, slot@, now)) >= secs(minutes * 60)),
            final(self)@ == old(self)@.insert(slot@, since_when(old(self)@, slot@, now)),
    {
        let held = self.mark(slot, now);
        held.nanos >= minutes as u128 * 60 * NANOS_PER_SEC
    }
}

impl Default for UnfavorableTracker {
    fn default() -> (r: UnfavorableTracker)
        ensures
            r@ == Map::<Seq<char>, Instant>::empty(),
    {
        UnfavorableTracker::new()
    }
}

} // verus!
