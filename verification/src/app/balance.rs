//! What the venues hold for us: money to trade with, and positions.

use crate::clock::Instant;
use crate::config::SizingConfig;
use crate::decimal::{
    add_calc, adds_exactly, dmax, lemma_lit, lemma_sign, lit, sum, value, ArithError, Calc, Decimal,
};
use crate::exchange::port::{AccountSnapshot, Balance, VenuePosition};
use crate::keymap::KeyMap;
use crate::text::{same, same_but_case, same_ignoring_case};
use vstd::prelude::*;

verus! {

#[derive(Debug)]
pub struct VenueExchangePosition {
    pub symbol: String,
    pub qty: Decimal,
    pub entry_price: Option<Decimal>,
    pub realized_pnl: Option<Decimal>,
}

#[derive(Debug)]
pub struct VenueAccountSnapshot {
    pub venue: String,
    pub available: Decimal,
    pub total: Decimal,
    pub positions: Vec<VenueExchangePosition>,
    /// The venue answered. Where it did not, an empty list of positions says
    /// that they are not known, not that there are none.
    pub fresh: bool,
}

#[derive(Debug)]
pub struct VenueAccountCache {
    pub venues: Vec<VenueAccountSnapshot>,
    pub last_refresh: Instant,
}

/// The first account of a venue; the length where there is none.
pub open spec fn venue_at(s: Seq<VenueAccountSnapshot>, venue: Seq<char>) -> int
    decreases s.len(),
{
    if s.len() == 0 || s[0].venue@ == venue {
        0
    } else {
        1 + venue_at(s.drop_first(), venue)
    }
}

/// The first account of a venue that answered; the length where there is none.
pub open spec fn fresh_at(s: Seq<VenueAccountSnapshot>, venue: Seq<char>) -> int
    decreases s.len(),
{
    if s.len() == 0 || (s[0].venue@ == venue && s[0].fresh) {
        0
    } else {
        1 + fresh_at(s.drop_first(), venue)
    }
}

proof fn lemma_venue_at(s: Seq<VenueAccountSnapshot>, venue: Seq<char>)
    ensures
        0 <= venue_at(s, venue) <= s.len(),
        venue_at(s, venue) < s.len() ==> s[venue_at(s, venue)].venue@ == venue,
        forall|j: int| 0 <= j < venue_at(s, venue) ==> #[trigger] s[j].venue@ != venue,
    decreases s.len(),
{
    if s.len() == 0 || s[0].venue@ == venue {
    } else {
        let t = s.drop_first();
        lemma_venue_at(t, venue);
        assert forall|j: int| 0 <= j < venue_at(s, venue) implies #[trigger] s[j].venue@
            != venue by {
            if j > 0 {
                assert(t[j - 1] == s[j]);
            }
        }
    }
}

proof fn lemma_fresh_at(s: Seq<VenueAccountSnapshot>, venue: Seq<char>)
    ensures
        0 <= fresh_at(s, venue) <= s.len(),
        fresh_at(s, venue) < s.len() ==> s[fresh_at(s, venue)].venue@ == venue
            && s[fresh_at(s, venue)].fresh,
        forall|j: int|
            0 <= j < fresh_at(s, venue) ==> !(#[trigger] s[j].venue@ == venue && s[j].fresh),
    decreases s.len(),
{
    if s.len() == 0 || (s[0].venue@ == venue && s[0].fresh) {
    } else {
        let t = s.drop_first();
        lemma_fresh_at(t, venue);
        assert forall|j: int| 0 <= j < fresh_at(s, venue) implies !(#[trigger] s[j].venue@ == venue
            && s[j].fresh) by {
            if j > 0 {
                assert(t[j - 1] == s[j]);
            }
        }
    }
}

/// An account after a refresh: what the venue answered or, where it did not and
/// an earlier answer is known, that answer.
pub open spec fn kept(
    incoming: Seq<VenueAccountSnapshot>,
    earlier: Seq<VenueAccountSnapshot>,
    i: int,
) -> VenueAccountSnapshot {
    let name = incoming[i].venue@;
    if !incoming[i].fresh && venue_at(incoming, name) == i && fresh_at(earlier, name)
        < earlier.len() {
        earlier[fresh_at(earlier, name)]
    } else {
        incoming[i]
    }
}

/// What can be spent on each venue that has something, the last of a name
/// counting.
pub open spec fn spendable(s: Seq<VenueAccountSnapshot>) -> Map<Seq<char>, Decimal>
    decreases s.len(),
{
    if s.len() == 0 {
        Map::empty()
    } else {
        let init = spendable(s.drop_last());
        if s.last().available.units() > 0 {
            init.insert(s.last().venue@, s.last().available)
        } else {
            init
        }
    }
}

/// Every venue answered, and there is one.
pub open spec fn all_answered(s: Seq<VenueAccountSnapshot>) -> bool {
    s.len() > 0 && forall|i: int| 0 <= i < s.len() ==> (#[trigger] s[i]).fresh
}

impl VenueAccountCache {
    pub fn get(&self, venue: &str) -> (r: Option<&VenueAccountSnapshot>)
        ensures
            match r {
                Some(a) => venue_at(self.venues@, venue@) < self.venues@.len() && *a
                    == self.venues@[venue_at(self.venues@, venue@)],
                None => venue_at(self.venues@, venue@) == self.venues@.len(),
            },
    {
        let mut i: usize = 0;
        proof {
            lemma_venue_at(self.venues@, venue@);
        }
        while i < self.venues.len()
            invariant
                i <= self.venues@.len(),
                i <= venue_at(self.venues@, venue@) <= self.venues@.len(),
                venue_at(self.venues@, venue@) < self.venues@.len() ==> self.venues@[venue_at(
                    self.venues@,
                    venue@,
                )].venue@ == venue@,
                forall|j: int|
                    0 <= j < venue_at(self.venues@, venue@) ==> #[trigger] self.venues@[j].venue@
                        != venue@,
            decreases self.venues.len() - i,
        {
            if same(self.venues[i].venue.as_str(), venue) {
                return Some(&self.venues[i]);
            }
            i = i + 1;
        }
        None
    }

    /// Every venue answered. Where one did not, nothing can be said of what is
    /// held on one side alone.
    pub fn all_fresh(&self) -> (r: bool)
        ensures
            r == all_answered(self.venues@),
    {
        if self.venues.len() == 0 {
            return false;
        }
        let mut i: usize = 0;
        while i < self.venues.len()
            invariant
                i <= self.venues@.len(),
                forall|j: int| 0 <= j < i ==> (#[trigger] self.venues@[j]).fresh,
            decreases self.venues.len() - i,
        {
            if !self.venues[i].fresh {
                return false;
            }
            i = i + 1;
        }
        true
    }

    /// Takes a refresh in. A venue that did not answer keeps its last answer:
    /// one failure neither empties its balance nor stops the watch over
    /// positions on one side alone.
    pub fn absorb(&mut self, incoming: VenueAccountCache)
        ensures
            final(self).last_refresh == incoming.last_refresh,
            final(self).venues@.len() == incoming.venues@.len(),
            forall|i: int|
                0 <= i < incoming.venues@.len() ==> #[trigger] final(self).venues@[i] == kept(
                    incoming.venues@,
                    old(self).venues@,
                    i,
                ),
    {
        let ghost inc = incoming.venues@;
        let ghost earlier = self.venues@;
        let mut previous: Vec<VenueAccountSnapshot> = Vec::new();
        std::mem::swap(&mut previous, &mut self.venues);
        *self = incoming;
        let ghost mut k: int = 0;
        let n = previous.len();
        let mut done: usize = 0;
        proof {
            assert(earlier.take(0) =~= Seq::empty());
            assert(earlier.skip(0) =~= earlier);
        }
        while done < n
            invariant
                n == earlier.len(),
                done <= n,
                k == done,
                previous@ == earlier.skip(k),
                self.last_refresh == incoming.last_refresh,
                self.venues@.len() == inc.len(),
                forall|i: int|
                    0 <= i < inc.len() ==> #[trigger] self.venues@[i] == kept(
                        inc,
                        earlier.take(k),
                        i,
                    ),
            decreases n - done,
        {
            let prev = previous.remove(0);
            let ghost p = prev;
            let ghost cur = self.venues@;
            let ghost next = earlier.take(k + 1);
            proof {
                assert(p == earlier[k]);
                assert(previous@ =~= earlier.skip(k + 1));
                assert forall|i: int| 0 <= i < inc.len() implies (#[trigger] cur[i]).venue@
                    == inc[i].venue@ by {
                    lemma_fresh_at(earlier.take(k), inc[i].venue@);
                }
                lemma_same_names(cur, inc, p.venue@);
                lemma_venue_at(inc, p.venue@);
            }
            let mut at: usize = 0;
            let ghost goal = venue_at(inc, p.venue@);
            while at < self.venues.len() && !same(
                self.venues[at].venue.as_str(),
                prev.venue.as_str(),
            )
                invariant
                    self.venues@ == cur,
                    cur.len() == inc.len(),
                    prev == p,
                    at <= goal <= inc.len(),
                    goal < inc.len() ==> cur[goal].venue@ == p.venue@,
                    forall|j: int| 0 <= j < goal ==> (#[trigger] cur[j]).venue@ != p.venue@,
                decreases self.venues.len() - at,
            {
                at = at + 1;
            }
            if at < self.venues.len() && !self.venues[at].fresh && prev.fresh {
                self.venues.set(at, prev);
            }
            proof {
                assert forall|i: int| 0 <= i < inc.len() implies #[trigger] self.venues@[i]
                    == kept(inc, next, i) by {
                    let name = inc[i].venue@;
                    assert(cur[i] == kept(inc, earlier.take(k), i));
                    lemma_fresh_at(earlier.take(k), name);
                    lemma_fresh_at(next, name);
                    lemma_venue_at(inc, name);
                    assert(next[k] == p);
                    assert forall|j: int| 0 <= j < k implies #[trigger] next[j] == earlier.take(
                        k,
                    )[j] by {}
                    lemma_fresh_step(earlier.take(k), next, name);
                    if i == goal {
                        assert(name == p.venue@);
                    }
                }
                k = k + 1;
            }
            done = done + 1;
        }
        proof {
            assert(earlier.take(k) =~= earlier);
        }
    }

    pub fn to_balance_map(&self) -> (r: KeyMap<Decimal>)
        ensures
            r@ == spendable(self.venues@),
    {
        let mut out: KeyMap<Decimal> = KeyMap::new();
        let mut i: usize = 0;
        proof {
            assert(self.venues@.take(0) =~= Seq::empty());
        }
        while i < self.venues.len()
            invariant
                i <= self.venues@.len(),
                out@ == spendable(self.venues@.take(i as int)),
            decreases self.venues.len() - i,
        {
            proof {
                assert(self.venues@.take(i + 1).drop_last() =~= self.venues@.take(i as int));
            }
            if self.venues[i].available.is_positive() {
                out.insert(self.venues[i].venue.as_str(), self.venues[i].available);
            }
            i = i + 1;
        }
        proof {
            assert(self.venues@.take(i as int) =~= self.venues@);
        }
        out
    }
}

proof fn lemma_same_names(
    a: Seq<VenueAccountSnapshot>,
    b: Seq<VenueAccountSnapshot>,
    venue: Seq<char>,
)
    requires
        a.len() == b.len(),
        forall|i: int| 0 <= i < a.len() ==> (#[trigger] a[i]).venue@ == b[i].venue@,
    ensures
        venue_at(a, venue) == venue_at(b, venue),
        venue_at(b, venue) < b.len() ==> a[venue_at(b, venue)].venue@ == venue,
        forall|j: int| 0 <= j < venue_at(b, venue) ==> (#[trigger] a[j]).venue@ != venue,
{
    lemma_venue_at(a, venue);
    lemma_venue_at(b, venue);
    let i = venue_at(a, venue);
    let j = venue_at(b, venue);
    if i < j {
        assert(a[i].venue@ == b[i].venue@);
    }
    if j < i {
        assert(a[j].venue@ == b[j].venue@);
    }
}

/// One more account behind: it counts where none before it does.
proof fn lemma_fresh_step(
    s: Seq<VenueAccountSnapshot>,
    t: Seq<VenueAccountSnapshot>,
    venue: Seq<char>,
)
    requires
        t.len() == s.len() + 1,
        forall|j: int| 0 <= j < s.len() ==> #[trigger] t[j] == s[j],
    ensures
        fresh_at(s, venue) < s.len() ==> fresh_at(t, venue) == fresh_at(s, venue),
        fresh_at(s, venue) == s.len() ==> fresh_at(t, venue) == (if t.last().venue@ == venue
            && t.last().fresh {
            s.len() as int
        } else {
            t.len() as int
        }),
{
    lemma_fresh_at(s, venue);
    lemma_fresh_at(t, venue);
    let i = fresh_at(s, venue);
    let j = fresh_at(t, venue);
    if i < s.len() {
        assert(t[i] == s[i]);
        if j < i {
            assert(t[j] == s[j]);
        }
    } else if j < s.len() {
        assert(t[j] == s[j]);
    }
}

pub struct BalanceCache {
    pub by_venue: KeyMap<Decimal>,
    pub last_refresh: Instant,
}

impl BalanceCache {
    pub fn venue_available(&self, venue: &str) -> (r: Decimal)
        ensures
            r == (if self.by_venue@.contains_key(venue@) {
                self.by_venue@[venue@]
            } else {
                lit(0, 0)
            }),
    {
        match self.by_venue.get(venue) {
            Some(d) => *d,
            None => Decimal::zero(),
        }
    }

    /// The least that a venue has, among those that have something; zero where
    /// none has.
    pub fn global_min(&self) -> (r: Decimal)
        ensures
            ({
                let m = self.by_venue@;
                ||| (r == lit(0, 0) && forall|v: Seq<char>| #[trigger]
                    m.contains_key(v) ==> m[v].units() <= 0)
                ||| (r.units() > 0 && (exists|v: Seq<char>| #[trigger]
                    m.contains_key(v) && m[v] == r) && forall|v: Seq<char>| #[trigger]
                    m.contains_key(v) && m[v].units() > 0 ==> r.units() <= m[v].units())
            }),
    {
        let n = self.by_venue.len();
        let ghost ks = self.by_venue.keys();
        let ghost m = self.by_venue@;
        let mut best: Option<Decimal> = None;
        let mut i: usize = 0;
        while i < n
            invariant
                ks == self.by_venue.keys(),
                m == self.by_venue@,
                n == ks.len(),
                i <= n,
                match best {
                    None => forall|j: int|
                        0 <= j < i ==> m.contains_key(#[trigger] ks[j]) ==> m[ks[j]].units() <= 0,
                    Some(b) => b.units() > 0 && (exists|v: Seq<char>| #[trigger]
                        m.contains_key(v) && m[v] == b) && forall|j: int|
                        0 <= j < i ==> (m.contains_key(#[trigger] ks[j]) && m[ks[j]].units() > 0
                            ==> b.units() <= m[ks[j]].units()),
                },
            decreases n - i,
        {
            let v = *self.by_venue.value(i);
            proof {
                assert(m.contains_key(ks[i as int]) && m[ks[i as int]] == v);
            }
            if v.is_positive() {
                best = match best {
                    None => Some(v),
                    Some(b) => if v < b {
                        Some(v)
                    } else {
                        Some(b)
                    },
                };
            }
            i = i + 1;
        }
        proof {
            assert forall|v: Seq<char>| #[trigger] m.contains_key(v) implies exists|j: int|
                0 <= j < n && #[trigger] ks[j] == v by {
                assert(m.dom().contains(v));
                assert(ks.to_set().contains(v));
                let j = choose|j: int| 0 <= j < ks.len() && ks[j] == v;
                assert(0 <= j < n && ks[j] == v);
            }
        }
        match best {
            Some(b) => b,
            None => Decimal::zero(),
        }
    }
}

// ---------------------------------------------------------------------------
// Refreshing
// ---------------------------------------------------------------------------

/// The assets that count as dollars.
pub open spec fn is_stable_asset(asset: Seq<char>) -> bool {
    same_ignoring_case(asset, "USDC"@) || same_ignoring_case(asset, "USDG"@)
        || same_ignoring_case(asset, "USDT"@) || same_ignoring_case(asset, "USD"@)
        || same_ignoring_case(asset, "VUSDC"@) || same_ignoring_case(asset, "VUSD"@)
}

fn stable_asset(asset: &str) -> (r: bool)
    ensures
        r == is_stable_asset(asset@),
{
    same_but_case(asset, "USDC") || same_but_case(asset, "USDG") || same_but_case(asset, "USDT")
        || same_but_case(asset, "USD") || same_but_case(asset, "VUSDC") || same_but_case(
        asset,
        "VUSD",
    )
}

/// The dollars that can be spent.
pub open spec fn dollars_available(s: Seq<Balance>) -> Calc
    decreases s.len(),
{
    if s.len() == 0 {
        Ok(lit(0, 0))
    } else {
        let init = dollars_available(s.drop_last());
        if is_stable_asset(s.last().asset@) {
            sum(init, Ok(s.last().available))
        } else {
            init
        }
    }
}

/// The dollars in all; where a venue does not say, what can be spent.
pub open spec fn dollars_total(s: Seq<Balance>) -> Calc
    decreases s.len(),
{
    if s.len() == 0 {
        Ok(lit(0, 0))
    } else {
        let init = dollars_total(s.drop_last());
        if is_stable_asset(s.last().asset@) {
            sum(
                init,
                Ok(
                    match s.last().total {
                        Some(t) => t,
                        None => s.last().available,
                    },
                ),
            )
        } else {
            init
        }
    }
}

pub fn stable_available(bals: &Vec<Balance>) -> (r: Calc)
    ensures
        r == dollars_available(bals@),
{
    let mut acc: Calc = Ok(Decimal::zero());
    let mut i: usize = 0;
    proof {
        assert(bals@.take(0) =~= Seq::empty());
    }
    while i < bals.len()
        invariant
            i <= bals@.len(),
            acc == dollars_available(bals@.take(i as int)),
        decreases bals.len() - i,
    {
        proof {
            assert(bals@.take(i + 1).drop_last() =~= bals@.take(i as int));
        }
        if stable_asset(bals[i].asset.as_str()) {
            acc = add_calc(acc, Ok(bals[i].available));
        }
        i = i + 1;
    }
    proof {
        assert(bals@.take(i as int) =~= bals@);
    }
    acc
}

pub fn stable_total(bals: &Vec<Balance>) -> (r: Calc)
    ensures
        r == dollars_total(bals@),
{
    let mut acc: Calc = Ok(Decimal::zero());
    let mut i: usize = 0;
    proof {
        assert(bals@.take(0) =~= Seq::empty());
    }
    while i < bals.len()
        invariant
            i <= bals@.len(),
            acc == dollars_total(bals@.take(i as int)),
        decreases bals.len() - i,
    {
        proof {
            assert(bals@.take(i + 1).drop_last() =~= bals@.take(i as int));
        }
        if stable_asset(bals[i].asset.as_str()) {
            let x = match bals[i].total {
                Some(t) => t,
                None => bals[i].available,
            };
            acc = add_calc(acc, Ok(x));
        }
        i = i + 1;
    }
    proof {
        assert(bals@.take(i as int) =~= bals@);
    }
    acc
}

/// What counts as available and in all on a venue. A venue without dollars has
/// what the configuration puts in their place, if it does.
pub open spec fn money_of(bals: Seq<Balance>, fallback: Option<Decimal>) -> Result<
    (Decimal, Decimal),
    ArithError,
> {
    match (dollars_available(bals), dollars_total(bals)) {
        (Ok(a), Ok(t)) => {
            let available = if a.units() <= 0 && fallback is Some {
                fallback->0
            } else {
                a
            };
            Ok((available, dmax(t, available)))
        },
        _ => Err(ArithError),
    }
}

/// A position as a venue tells it.
pub open spec fn told(p: VenuePosition) -> VenueExchangePosition {
    VenueExchangePosition {
        symbol: p.symbol,
        qty: p.qty,
        entry_price: p.entry_price,
        realized_pnl: p.realized_pnl,
    }
}

/// What is known of a venue after one answer.
pub open spec fn account_is(
    a: VenueAccountSnapshot,
    row: (String, AccountSnapshot, bool),
    fallback: Option<Decimal>,
) -> bool {
    &&& a.venue@ == row.0@
    &&& a.fresh == row.2
    &&& a.positions@ == row.1.positions@.map_values(|p: VenuePosition| told(p))
    &&& money_of(row.1.balances@, fallback) == Ok::<(Decimal, Decimal), ArithError>(
        (a.available, a.total),
    )
}

fn told_positions(list: &Vec<VenuePosition>) -> (r: Vec<VenueExchangePosition>)
    ensures
        r@ == list@.map_values(|p: VenuePosition| told(p)),
{
    let mut out: Vec<VenueExchangePosition> = Vec::new();
    let mut i: usize = 0;
    while i < list.len()
        invariant
            i <= list@.len(),
            out@.len() == i,
            forall|j: int| 0 <= j < i ==> #[trigger] out@[j] == told(list@[j]),
        decreases list.len() - i,
    {
        let p = &list[i];
        out.push(
            VenueExchangePosition {
                symbol: p.symbol.clone(),
                qty: p.qty,
                entry_price: p.entry_price,
                realized_pnl: p.realized_pnl,
            },
        );
        i = i + 1;
    }
    proof {
        assert(out@ =~= list@.map_values(|p: VenuePosition| told(p)));
    }
    out
}

/// Takes the venues' answers in, one row each: its name, what it said, and
/// whether it answered. The replacement for missing dollars goes venue by venue:
/// one venue without an answer does not keep the others from trading.
pub fn refresh_accounts(
    rows: &Vec<(String, AccountSnapshot, bool)>,
    cfg: &SizingConfig,
    now: Instant,
) -> (r: Result<(BalanceCache, VenueAccountCache), ArithError>)
    ensures
        match r {
            Ok((balances, accounts)) => {
                &&& accounts.venues@.len() == rows@.len()
                &&& forall|i: int|
                    0 <= i < rows@.len() ==> account_is(
                        #[trigger] accounts.venues@[i],
                        rows@[i],
                        cfg.fallback_available_usdc,
                    )
                &&& balances.by_venue@ == spendable(accounts.venues@)
                &&& accounts.last_refresh == now
                &&& balances.last_refresh == now
            },
            Err(_) => exists|i: int|
                0 <= i < rows@.len() && money_of(
                    (#[trigger] rows@[i]).1.balances@,
                    cfg.fallback_available_usdc,
                ) is Err,
        },
{
    let fallback = cfg.fallback_available_usdc;
    let mut venues: Vec<VenueAccountSnapshot> = Vec::new();
    let mut i: usize = 0;
    while i < rows.len()
        invariant
            fallback == cfg.fallback_available_usdc,
            i <= rows@.len(),
            venues@.len() == i,
            forall|j: int|
                0 <= j < i ==> account_is(#[trigger] venues@[j], rows@[j], fallback),
        decreases rows.len() - i,
    {
        let row = &rows[i];
        let mut available = stable_available(&row.1.balances)?;
        let total = stable_total(&row.1.balances)?;
        if !available.is_positive() {
            if let Some(f) = fallback {
                available = f;
            }
        }
        venues.push(
            VenueAccountSnapshot {
                venue: row.0.clone(),
                available,
                total: total.max(available),
                positions: told_positions(&row.1.positions),
                fresh: row.2,
            },
        );
        i = i + 1;
    }
    let accounts = VenueAccountCache { venues, last_refresh: now };
    let by_venue = accounts.to_balance_map();
    Ok((BalanceCache { by_venue, last_refresh: now }, accounts))
}

// ---------------------------------------------------------------------------
// Laws
// ---------------------------------------------------------------------------

/// A venue that answered before and does not answer now keeps its answer.
pub proof fn law_failure_keeps_the_last_answer(
    incoming: Seq<VenueAccountSnapshot>,
    earlier: Seq<VenueAccountSnapshot>,
    i: int,
)
    requires
        0 <= i < incoming.len(),
        venue_at(incoming, incoming[i].venue@) == i,
        exists|k: int|
            0 <= k < earlier.len() && (#[trigger] earlier[k]).fresh && earlier[k].venue@
                == incoming[i].venue@,
    ensures
        kept(incoming, earlier, i).fresh,
        kept(incoming, earlier, i).venue@ == incoming[i].venue@,
{
    lemma_fresh_at(earlier, incoming[i].venue@);
}

/// The dollars among some balances, each by what can be spent of it.
pub open spec fn units_available(s: Seq<Balance>) -> int
    decreases s.len(),
{
    if s.len() == 0 {
        0
    } else {
        units_available(s.drop_last()) + (if is_stable_asset(s.last().asset@) {
            s.last().available.units()
        } else {
            0
        })
    }
}

/// The dollars among some balances, each by what it is in all, or by what can be spent of it
/// where that is not told.
pub open spec fn units_total(s: Seq<Balance>) -> int
    decreases s.len(),
{
    if s.len() == 0 {
        0
    } else {
        units_total(s.drop_last()) + (if is_stable_asset(s.last().asset@) {
            match s.last().total {
                Some(t) => t.units(),
                None => s.last().available.units(),
            }
        } else {
            0
        })
    }
}

/// Nothing is rounded away while the dollars are added up.
pub open spec fn counts_exactly(s: Seq<Balance>) -> bool
    decreases s.len(),
{
    s.len() == 0 || (counts_exactly(s.drop_last()) && (is_stable_asset(s.last().asset@) ==> {
        let t = match s.last().total {
            Some(t) => t,
            None => s.last().available,
        };
        adds_exactly(dollars_available(s.drop_last()), Ok(s.last().available)) && adds_exactly(
            dollars_total(s.drop_last()),
            Ok(t),
        )
    }))
}

proof fn lemma_dollars(s: Seq<Balance>)
    requires
        counts_exactly(s),
    ensures
        dollars_available(s) is Ok,
        value(dollars_available(s)) == units_available(s),
        dollars_total(s) is Ok,
        value(dollars_total(s)) == units_total(s),
    decreases s.len(),
{
    broadcast use lemma_lit, lemma_sign;

    if s.len() > 0 {
        lemma_dollars(s.drop_last());
    }
}

/// A venue has the dollars that can be spent there; only where there are none, what is put in
/// their place. In all it has what its dollars come to, and never less than what it can spend.
pub proof fn law_money_is_the_sum_of_the_dollars(bals: Seq<Balance>, fallback: Option<Decimal>)
    requires
        counts_exactly(bals),
    ensures
        money_of(bals, fallback) matches Ok((available, total)) && {
            let a = units_available(bals);
            let t = units_total(bals);
            &&& a > 0 || fallback is None ==> available.units() == a
            &&& a <= 0 ==> (fallback matches Some(f) ==> available == f)
            &&& total.units() >= available.units() && total.units() >= t
            &&& total.units() == t || total.units() == available.units()
        },
{
    lemma_dollars(bals);
}

/// What can be spent is told of exactly the venues that have something, and of a name that stands
/// twice it is the last that has.
pub proof fn law_only_venues_with_money_can_spend(s: Seq<VenueAccountSnapshot>, i: int)
    requires
        0 <= i < s.len(),
    ensures
        s[i].available.units() > 0 ==> spendable(s).contains_key(s[i].venue@),
        s[i].available.units() > 0 && (forall|j: int|
            i < j < s.len() ==> (#[trigger] s[j]).venue@ != s[i].venue@) ==> spendable(
            s,
        )[s[i].venue@] == s[i].available,
        forall|v: Seq<char>| #[trigger]
            spendable(s).contains_key(v) ==> spendable(s)[v].units() > 0,
    decreases s.len(),
{
    let t = s.drop_last();
    let init = spendable(t);
    assert(t.len() == 0 ==> init == Map::<Seq<char>, Decimal>::empty());
    if t.len() > 0 {
        law_only_venues_with_money_can_spend(
            t,
            if i < t.len() {
                i
            } else {
                0
            },
        );
    }
    if i < t.len() {
        assert(t[i] == s[i]);
        assert(s[s.len() - 1] == s.last());
        if forall|j: int| i < j < s.len() ==> (#[trigger] s[j]).venue@ != s[i].venue@ {
            assert forall|j: int| i < j < t.len() implies (#[trigger] t[j]).venue@
                != t[i].venue@ by {
                assert(t[j] == s[j]);
            }
        }
    }
}

} // verus!
