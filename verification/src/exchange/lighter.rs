//! Lighter: its list of markets and the book that is kept from its messages.

use crate::clock::Instant;
use crate::decimal::{decimal_of_text, lit, Decimal};
use crate::domain::book::{copy_levels, Bbo, Level};
use crate::domain::symbol::{
    allowed, normalize_perp, perp_of, whitelist_allows, VenueId, VenueMarket,
};
use crate::exchange::bridge::{dec, field_decimal};
use crate::exchange::top::{
    is_open, is_top, market_model, market_models, read_size, size_of_text, top_book, MarketModel,
};
use crate::keymap::KeyMap;
use crate::text::{
    after_last, behind_last, exchange, exchanged, int_text, number_text, parse_i32, same, signed_of,
    trim, trimmed,
};
use vstd::prelude::*;
use vstd::string::*;

verus! {

/// How many subscriptions go out between rests.
pub const SUBSCRIBE_BATCH: usize = 10;

// ---------------------------------------------------------------------------
// Markets
// ---------------------------------------------------------------------------

#[derive(Debug)]
pub struct RawBook {
    pub symbol: String,
    pub market_id: i32,
    pub market_type: String,
    pub status: String,
    pub min_base_amount: String,
    pub supported_size_decimals: u32,
    pub daily_quote_token_volume: Option<String>,
}

/// The market of a listed book, if it may be traded here. One whose smallest
/// quantity is not above zero is left out.
pub open spec fn book_market(venue: Seq<char>, raw: RawBook, whitelist: Seq<String>) -> Option<
    MarketModel,
> {
    if raw.status@.len() > 0 && raw.status@ != "active"@ {
        None
    } else {
        match (perp_of(raw.symbol@, raw.market_type@), decimal_of_text(raw.min_base_amount@)) {
            (Some((base, pair_id)), Some(min_qty)) => if !allowed(base, whitelist)
                || min_qty.units() <= 0 {
                None
            } else {
                Some(
                    MarketModel {
                        venue,
                        raw_symbol: raw.symbol@,
                        pair_id,
                        base,
                        market_index: raw.market_id as int,
                        qty_precision: raw.supported_size_decimals as int,
                        min_qty,
                        volume: field_decimal(raw.daily_quote_token_volume),
                    },
                )
            },
            _ => None,
        }
    }
}

pub open spec fn book_markets(venue: Seq<char>, s: Seq<RawBook>, whitelist: Seq<String>) -> Seq<
    MarketModel,
>
    decreases s.len(),
{
    if s.len() == 0 {
        Seq::empty()
    } else {
        let init = book_markets(venue, s.drop_last(), whitelist);
        match book_market(venue, s.last(), whitelist) {
            Some(m) => init.push(m),
            None => init,
        }
    }
}

/// The markets of the listed books.
pub fn parse_order_books(venue: &VenueId, s: &Vec<RawBook>, whitelist: &Vec<String>) -> (r: Vec<
    VenueMarket,
>)
    ensures
        market_models(r@) == book_markets(venue.0@, s@, whitelist@),
{
    let mut out: Vec<VenueMarket> = Vec::new();
    let mut i: usize = 0;
    proof {
        assert(s@.take(0) =~= Seq::empty());
        assert(market_models(out@) =~= Seq::empty());
    }
    while i < s.len()
        invariant
            i <= s@.len(),
            market_models(out@) == book_markets(venue.0@, s@.take(i as int), whitelist@),
        decreases s.len() - i,
    {
        proof {
            assert(s@.take(i + 1).drop_last() =~= s@.take(i as int));
        }
        let raw = &s[i];
        if raw.status.as_str().unicode_len() == 0 || same(raw.status.as_str(), "active") {
            if let Some((base, pair_id)) = normalize_perp(
                raw.symbol.as_str(),
                raw.market_type.as_str(),
            ) {
                if whitelist_allows(base.as_str(), whitelist.as_slice()) {
                    if let Some(min_qty) = Decimal::parse(raw.min_base_amount.as_str()) {
                        if min_qty > Decimal::zero() {
                            let ghost before = out@;
                            let item = VenueMarket {
                                venue: venue.clone(),
                                raw_symbol: raw.symbol.clone(),
                                pair_id,
                                base,
                                market_index: raw.market_id,
                                qty_precision: raw.supported_size_decimals,
                                min_qty,
                                volume_24h_usdc: dec(&raw.daily_quote_token_volume),
                            };
                            let ghost m = market_model(item);
                            out.push(item);
                            proof {
                                assert(market_models(out@) =~= market_models(before).push(m));
                            }
                        }
                    }
                }
            }
        }
        i = i + 1;
    }
    proof {
        assert(s@.take(i as int) =~= s@);
    }
    out
}

/// The market that a channel is about: the number behind its last stroke or
/// colon.
pub open spec fn channel_market(channel: Seq<char>) -> Option<i32> {
    match signed_of(behind_last(exchanged(channel, ':', '/'), '/')) {
        Some(n) => if i32::MIN <= n <= i32::MAX {
            Some(n as i32)
        } else {
            None
        },
        None => None,
    }
}

pub fn parse_market_id(channel: &str) -> (r: Option<i32>)
    ensures
        r == channel_market(channel@),
{
    let t = exchange(channel, ':', '/');
    parse_i32(after_last(t.as_str(), '/'))
}

/// What a venue says of its best orders, with what was missing left out.
#[derive(Debug)]
pub struct OrdersRow {
    pub bid: Option<String>,
    pub bid_qty: Option<String>,
    pub ask: Option<String>,
    pub ask_qty: Option<String>,
}

/// The book of the best orders. All four fields have to be there; a quantity that
/// cannot be read is none.
pub fn bbo_from_lighter_orders(row: &OrdersRow, now: Instant) -> (r: Option<Bbo>)
    ensures
        match (field_decimal(row.bid), field_decimal(row.ask), row.bid_qty, row.ask_qty) {
            (Some(b), Some(a), Some(_), Some(_)) => match r {
                Some(x) => is_open(b, a) && is_top(
                    x,
                    b,
                    field_or_zero(row.bid_qty),
                    a,
                    field_or_zero(row.ask_qty),
                    now,
                ),
                None => !is_open(b, a),
            },
            _ => r is None,
        },
{
    match (dec(&row.bid), dec(&row.ask), &row.bid_qty, &row.ask_qty) {
        (Some(b), Some(a), Some(_), Some(_)) => {
            let bid_qty = match dec(&row.bid_qty) {
                Some(d) => d,
                None => Decimal::zero(),
            };
            let ask_qty = match dec(&row.ask_qty) {
                Some(d) => d,
                None => Decimal::zero(),
            };
            top_book(b, bid_qty, a, ask_qty, now)
        },
        _ => None,
    }
}

pub open spec fn field_or_zero(t: Option<String>) -> Decimal {
    match field_decimal(t) {
        Some(d) => d,
        None => lit(0, 0),
    }
}

// ---------------------------------------------------------------------------
// The book
// ---------------------------------------------------------------------------

#[derive(Debug)]
pub struct WsLevel {
    pub price: String,
    pub size: String,
}

#[derive(Debug)]
pub struct WsBook {
    pub bids: Vec<WsLevel>,
    pub asks: Vec<WsLevel>,
}

/// One side of a book: at each price its level.
pub type Side = Map<int, Level>;

/// The prices rise.
pub open spec fn rising(s: Seq<Level>) -> bool {
    forall|i: int, j: int|
        0 <= i < j < s.len() ==> (#[trigger] s[i]).0.units() < (#[trigger] s[j]).0.units()
}

/// The side that a list of levels holds.
pub open spec fn side_of(s: Seq<Level>) -> Side {
    Map::new(
        |u: int| exists|i: int| 0 <= i < s.len() && (#[trigger] s[i]).0.units() == u,
        |u: int| s[choose|i: int| 0 <= i < s.len() && (#[trigger] s[i]).0.units() == u],
    )
}

proof fn lemma_side(s: Seq<Level>, i: int)
    requires
        rising(s),
        0 <= i < s.len(),
    ensures
        side_of(s).contains_key(s[i].0.units()),
        side_of(s)[s[i].0.units()] == s[i],
{
    let u = s[i].0.units();
    assert(exists|k: int| 0 <= k < s.len() && (#[trigger] s[k]).0.units() == u);
    let j = choose|k: int| 0 <= k < s.len() && (#[trigger] s[k]).0.units() == u;
    if j < i {
        assert(s[j].0.units() < s[i].0.units());
    }
    if i < j {
        assert(s[i].0.units() < s[j].0.units());
    }
}

proof fn lemma_side_index(s: Seq<Level>, u: int) -> (i: int)
    requires
        side_of(s).contains_key(u),
    ensures
        0 <= i < s.len(),
        s[i].0.units() == u,
{
    choose|k: int| 0 <= k < s.len() && (#[trigger] s[k]).0.units() == u
}

/// One level of a message put into a side: a size of nothing takes the price
/// out, and a price that is there keeps the way it was written. A level whose
/// price cannot be read is passed over.
pub open spec fn put(m: Side, price: Seq<char>, size: Seq<char>) -> Side {
    match decimal_of_text(trimmed(price)) {
        None => m,
        Some(px) => {
            let u = px.units();
            let sz = size_of_text(size);
            if sz.units() <= 0 {
                m.remove(u)
            } else if m.contains_key(u) {
                m.insert(u, (m[u].0, sz))
            } else {
                m.insert(u, (px, sz))
            }
        },
    }
}

/// The levels of a message put into a side in turn.
pub open spec fn put_all(m: Side, levels: Seq<WsLevel>) -> Side
    decreases levels.len(),
{
    if levels.len() == 0 {
        m
    } else {
        put(put_all(m, levels.drop_last()), levels.last().price@, levels.last().size@)
    }
}

proof fn lemma_set(s: Seq<Level>, at: int, x: Level)
    requires
        rising(s),
        0 <= at < s.len(),
        x.0.units() == s[at].0.units(),
    ensures
        rising(s.update(at, x)),
        side_of(s.update(at, x)) == side_of(s).insert(x.0.units(), x),
{
    let t = s.update(at, x);
    let u = x.0.units();
    assert forall|i: int, j: int| 0 <= i < j < t.len() implies (#[trigger] t[i]).0.units() < (
    #[trigger] t[j]).0.units() by {
        assert(s[i].0.units() < s[j].0.units());
    }
    let want = side_of(s).insert(u, x);
    assert forall|v: int| side_of(t).contains_key(v) <==> want.contains_key(v) by {
        if side_of(t).contains_key(v) {
            let i = lemma_side_index(t, v);
            lemma_side(s, i);
        }
        if want.contains_key(v) {
            if v == u {
                lemma_side(t, at);
            } else {
                let i = lemma_side_index(s, v);
                lemma_side(t, i);
            }
        }
    }
    assert forall|v: int| side_of(t).contains_key(v) implies side_of(t)[v] == want[v] by {
        let i = lemma_side_index(t, v);
        lemma_side(t, i);
        lemma_side(s, i);
    }
    assert(side_of(t) =~= want);
}

proof fn lemma_remove(s: Seq<Level>, at: int)
    requires
        rising(s),
        0 <= at < s.len(),
    ensures
        rising(s.remove(at)),
        side_of(s.remove(at)) == side_of(s).remove(s[at].0.units()),
{
    let t = s.remove(at);
    let u = s[at].0.units();
    let from = |i: int|
        if i < at {
            i
        } else {
            i + 1
        };
    assert forall|i: int| 0 <= i < t.len() implies #[trigger] t[i] == s[from(i)] by {}
    assert forall|i: int, j: int| 0 <= i < j < t.len() implies (#[trigger] t[i]).0.units() < (
    #[trigger] t[j]).0.units() by {
        assert(s[from(i)].0.units() < s[from(j)].0.units());
    }
    let want = side_of(s).remove(u);
    assert forall|v: int| side_of(t).contains_key(v) <==> want.contains_key(v) by {
        if side_of(t).contains_key(v) {
            let i = lemma_side_index(t, v);
            lemma_side(s, from(i));
            if from(i) < at {
                assert(s[from(i)].0.units() < s[at].0.units());
            } else {
                assert(s[at].0.units() < s[from(i)].0.units());
            }
        }
        if want.contains_key(v) {
            let i = lemma_side_index(s, v);
            let k = if i < at {
                i
            } else {
                i - 1
            };
            assert(t[k] == s[i]);
            lemma_side(t, k);
        }
    }
    assert forall|v: int| side_of(t).contains_key(v) implies side_of(t)[v] == want[v] by {
        let i = lemma_side_index(t, v);
        lemma_side(t, i);
        lemma_side(s, from(i));
    }
    assert(side_of(t) =~= want);
}

proof fn lemma_insert(s: Seq<Level>, at: int, x: Level)
    requires
        rising(s),
        0 <= at <= s.len(),
        forall|k: int| 0 <= k < at ==> (#[trigger] s[k]).0.units() < x.0.units(),
        forall|k: int| at <= k < s.len() ==> (#[trigger] s[k]).0.units() > x.0.units(),
    ensures
        rising(s.insert(at, x)),
        side_of(s.insert(at, x)) == side_of(s).insert(x.0.units(), x),
        !side_of(s).contains_key(x.0.units()),
{
    let t = s.insert(at, x);
    let u = x.0.units();
    if side_of(s).contains_key(u) {
        let i = lemma_side_index(s, u);
        assert(s[i].0.units() == u);
    }
    let from = |i: int|
        if i < at {
            i
        } else {
            i - 1
        };
    assert forall|i: int| 0 <= i < t.len() && i != at implies #[trigger] t[i] == s[from(i)] by {}
    assert(t[at] == x);
    assert forall|i: int, j: int| 0 <= i < j < t.len() implies (#[trigger] t[i]).0.units() < (
    #[trigger] t[j]).0.units() by {
        if i == at {
            assert(s[from(j)].0.units() > u);
        } else if j == at {
            assert(s[from(i)].0.units() < u);
        } else {
            assert(s[from(i)].0.units() < s[from(j)].0.units());
        }
    }
    let want = side_of(s).insert(u, x);
    assert forall|v: int| side_of(t).contains_key(v) <==> want.contains_key(v) by {
        if side_of(t).contains_key(v) {
            let i = lemma_side_index(t, v);
            if i != at {
                lemma_side(s, from(i));
            }
        }
        if want.contains_key(v) {
            if v == u {
                lemma_side(t, at);
            } else {
                let i = lemma_side_index(s, v);
                let k = if i < at {
                    i
                } else {
                    i + 1
                };
                assert(t[k] == s[i]);
                lemma_side(t, k);
            }
        }
    }
    assert forall|v: int| side_of(t).contains_key(v) implies side_of(t)[v] == want[v] by {
        let i = lemma_side_index(t, v);
        lemma_side(t, i);
        if i != at {
            lemma_side(s, from(i));
        }
    }
    assert(side_of(t) =~= want);
}

fn put_level(side: &mut Vec<Level>, level: &WsLevel)
    requires
        rising(old(side)@),
    ensures
        rising(final(side)@),
        side_of(final(side)@) == put(side_of(old(side)@), level.price@, level.size@),
{
    let ghost s = side@;
    let px = match Decimal::parse(trim(level.price.as_str())) {
        Some(d) => d,
        None => {
            return ;
        },
    };
    let sz = read_size(level.size.as_str());
    let ghost u = px.units();
    let mut i: usize = 0;
    while i < side.len() && side[i].0 < px
        invariant
            side@ == s,
            i <= s.len(),
            u == px.units(),
            forall|k: int| 0 <= k < i ==> (#[trigger] s[k]).0.units() < u,
        decreases s.len() - i,
    {
        i = i + 1;
    }
    proof {
        assert forall|k: int| i < k < s.len() implies (#[trigger] s[k]).0.units() > u by {
            assert(s[i as int].0.units() < s[k].0.units());
        }
        if i < s.len() {
            lemma_side(s, i as int);
        }
    }
    let found = i < side.len() && side[i].0 <= px;
    proof {
        if !found {
            assert(!side_of(s).contains_key(u)) by {
                if side_of(s).contains_key(u) {
                    let k = lemma_side_index(s, u);
                    assert(s[k].0.units() == u);
                }
            }
        }
    }
    if sz <= Decimal::zero() {
        if found {
            proof {
                lemma_remove(s, i as int);
            }
            side.remove(i);
        } else {
            proof {
                assert(side_of(s).remove(u) =~= side_of(s));
            }
        }
    } else if found {
        let key = side[i].0;
        proof {
            lemma_set(s, i as int, (key, sz));
        }
        side.set(i, (key, sz));
    } else {
        proof {
            lemma_insert(s, i as int, (px, sz));
        }
        side.insert(i, (px, sz));
    }
}

fn apply_side(side: &mut Vec<Level>, levels: &Vec<WsLevel>)
    requires
        rising(old(side)@),
    ensures
        rising(final(side)@),
        side_of(final(side)@) == put_all(side_of(old(side)@), levels@),
{
    let ghost start = side_of(side@);
    let mut i: usize = 0;
    proof {
        assert(levels@.take(0) =~= Seq::empty());
    }
    while i < levels.len()
        invariant
            i <= levels@.len(),
            rising(side@),
            side_of(side@) == put_all(start, levels@.take(i as int)),
        decreases levels.len() - i,
    {
        proof {
            assert(levels@.take(i + 1).drop_last() =~= levels@.take(i as int));
        }
        put_level(side, &levels[i]);
        i = i + 1;
    }
    proof {
        assert(levels@.take(i as int) =~= levels@);
    }
}

/// The book of one market, kept from a snapshot and what changed since.
#[derive(Debug)]
pub struct LocalBook {
    bids: Vec<Level>,
    asks: Vec<Level>,
}

#[verifier::ext_equal]
pub struct LocalBookModel {
    pub bids: Side,
    pub asks: Side,
}

pub open spec fn empty_book() -> LocalBookModel {
    LocalBookModel { bids: Map::empty(), asks: Map::empty() }
}

/// A book with what a message says put in.
pub open spec fn changed(m: LocalBookModel, bids: Seq<WsLevel>, asks: Seq<WsLevel>) -> LocalBookModel {
    LocalBookModel { bids: put_all(m.bids, bids), asks: put_all(m.asks, asks) }
}

impl View for LocalBook {
    type V = LocalBookModel;

    closed spec fn view(&self) -> LocalBookModel {
        LocalBookModel { bids: side_of(self.bids@), asks: side_of(self.asks@) }
    }
}

/// `b` shows a book: its levels from the best, and the best of each side.
pub open spec fn shows(b: Bbo, m: LocalBookModel, now: Instant) -> bool {
    &&& b.asks@.len() > 0 && rising(b.asks@) && side_of(b.asks@) == m.asks
    &&& b.bids@.len() > 0 && rising(b.bids@.reverse()) && side_of(b.bids@.reverse()) == m.bids
    &&& (b.bid, b.bid_qty) == b.bids@[0]
    &&& (b.ask, b.ask_qty) == b.asks@[0]
    &&& b.ts == now
}

impl LocalBook {
    #[verifier::type_invariant]
    spec fn well_formed(self) -> bool {
        rising(self.bids@) && rising(self.asks@)
    }

    pub fn new() -> (r: LocalBook)
        ensures
            r@ == empty_book(),
    {
        let r = LocalBook { bids: Vec::new(), asks: Vec::new() };
        proof {
            assert(r@.bids =~= Map::empty());
            assert(r@.asks =~= Map::empty());
        }
        r
    }

    /// A snapshot: what stood in the book before is gone.
    pub fn replace(&mut self, book: &WsBook)
        ensures
            final(self)@ == changed(empty_book(), book.bids@, book.asks@),
    {
        let mut bids: Vec<Level> = Vec::new();
        let mut asks: Vec<Level> = Vec::new();
        proof {
            assert(side_of(bids@) =~= Map::empty());
            assert(side_of(asks@) =~= Map::empty());
        }
        apply_side(&mut bids, &book.bids);
        apply_side(&mut asks, &book.asks);
        *self = LocalBook { bids, asks };
    }

    /// What changed since.
    pub fn apply(&mut self, book: &WsBook)
        ensures
            final(self)@ == changed(old(self)@, book.bids@, book.asks@),
    {
        proof {
            use_type_invariant(&*self);
        }
        let mut bids: Vec<Level> = Vec::new();
        let mut asks: Vec<Level> = Vec::new();
        std::mem::swap(&mut bids, &mut self.bids);
        std::mem::swap(&mut asks, &mut self.asks);
        apply_side(&mut bids, &book.bids);
        apply_side(&mut asks, &book.asks);
        *self = LocalBook { bids, asks };
    }

    /// The book as it stands, if both sides hold something.
    pub fn bbo(&self, now: Instant) -> (r: Option<Bbo>)
        ensures
            match r {
                Some(b) => shows(b, self@, now),
                None => self@.bids == Map::<int, Level>::empty() || self@.asks == Map::<
                    int,
                    Level,
                >::empty(),
            },
            r is Some ==> self@.bids != Map::<int, Level>::empty() && self@.asks != Map::<
                int,
                Level,
            >::empty(),
    {
        proof {
            use_type_invariant(self);
        }
        if self.bids.len() == 0 {
            proof {
                assert(self@.bids =~= Map::empty());
            }
            return None;
        }
        if self.asks.len() == 0 {
            proof {
                assert(self@.asks =~= Map::empty());
            }
            return None;
        }
        let n = self.bids.len();
        let mut bids: Vec<Level> = Vec::new();
        let mut i: usize = n;
        while i > 0
            invariant
                i <= n,
                n == self.bids@.len(),
                bids@.len() == n - i,
                forall|k: int| 0 <= k < bids@.len() ==> #[trigger] bids@[k] == self.bids@[n - 1 - k],
            decreases i,
        {
            i = i - 1;
            bids.push(self.bids[i]);
        }
        let asks = copy_levels(&self.asks);
        proof {
            assert(bids@.reverse() =~= self.bids@);
            lemma_side(self.bids@, 0);
            lemma_side(self.asks@, 0);
        }
        let (bid, bid_qty) = bids[0];
        let (ask, ask_qty) = asks[0];
        Some(Bbo { bid, ask, bid_qty, ask_qty, bids, asks, ts: now })
    }
}

impl Default for LocalBook {
    fn default() -> (r: LocalBook)
        ensures
            r@ == empty_book(),
    {
        LocalBook::new()
    }
}

/// A change leaves alone the prices that it does not name.
pub proof fn law_change_leaves_other_prices(m: Side, levels: Seq<WsLevel>, u: int)
    requires
        forall|i: int|
            0 <= i < levels.len() ==> (decimal_of_text(
                trimmed((#[trigger] levels[i]).price@),
            ) matches Some(px) ==> px.units() != u),
    ensures
        put_all(m, levels).contains_key(u) == m.contains_key(u),
        m.contains_key(u) ==> put_all(m, levels)[u] == m[u],
    decreases levels.len(),
{
    if levels.len() > 0 {
        let init = levels.drop_last();
        assert forall|i: int| 0 <= i < init.len() implies (decimal_of_text(
            trimmed((#[trigger] init[i]).price@),
        ) matches Some(px) ==> px.units() != u) by {
            assert(init[i] == levels[i]);
        }
        law_change_leaves_other_prices(m, init, u);
        assert(levels[levels.len() - 1] == levels.last());
    }
}

/// What is shown as the best is the best: no bid of the book is higher and no ask
/// is lower.
pub proof fn law_best_is_shown(b: Bbo, m: LocalBookModel, now: Instant, u: int)
    requires
        shows(b, m, now),
    ensures
        m.bids.contains_key(u) ==> u <= b.bid.units(),
        m.asks.contains_key(u) ==> b.ask.units() <= u,
        m.bids.contains_key(b.bid.units()),
        m.asks.contains_key(b.ask.units()),
{
    let r = b.bids@.reverse();
    assert(r[r.len() - 1] == b.bids@[0]);
    lemma_side(r, r.len() - 1);
    lemma_side(b.asks@, 0);
    if m.bids.contains_key(u) {
        let i = lemma_side_index(r, u);
        if i < r.len() - 1 {
            assert(r[i].0.units() < r[r.len() - 1].0.units());
        }
    }
    if m.asks.contains_key(u) {
        let i = lemma_side_index(b.asks@, u);
        if i > 0 {
            assert(b.asks@[0].0.units() < b.asks@[i].0.units());
        }
    }
}

// ---------------------------------------------------------------------------
// Messages
// ---------------------------------------------------------------------------

/// The books of a connection, and whether its markets were asked for.
pub struct LighterFeed {
    pub books: KeyMap<LocalBook>,
    pub subscribed: bool,
}

/// What a message asks for.
#[derive(Debug)]
pub enum LighterStep {
    /// Answer that we are there.
    Pong,
    /// Ask for the markets.
    Subscribe,
    /// A pair's book has changed.
    Book(String, Bbo),
    Nothing,
}

/// The book that is kept for a market.
pub open spec fn kept_book(books: Map<Seq<char>, LocalBook>, id: int) -> LocalBookModel {
    if books.contains_key(number_text(id)) {
        books[number_text(id)]@
    } else {
        empty_book()
    }
}

/// Where a market stands among those that are followed, or their number.
pub open spec fn market_at(markets: Seq<(i32, String)>, id: int) -> int
    decreases markets.len(),
{
    if markets.len() == 0 || markets[0].0 == id {
        0
    } else {
        1 + market_at(markets.drop_first(), id)
    }
}

fn find_market(markets: &Vec<(i32, String)>, id: i32) -> (r: usize)
    ensures
        r == market_at(markets@, id as int),
        r <= markets@.len(),
{
    let mut i: usize = 0;
    proof {
        assert(markets@.skip(0) =~= markets@);
    }
    while i < markets.len()
        invariant
            i <= markets@.len(),
            market_at(markets@, id as int) == i + market_at(markets@.skip(i as int), id as int),
        decreases markets.len() - i,
    {
        proof {
            assert(markets@.skip(i as int).drop_first() =~= markets@.skip(i + 1));
            assert(markets@.skip(i as int)[0] == markets@[i as int]);
        }
        if markets[i].0 == id {
            return i;
        }
        i = i + 1;
    }
    i
}

/// The market whose book a message changes, if it is one that is followed.
pub open spec fn changes_market(
    markets: Seq<(i32, String)>,
    kind: Seq<char>,
    channel: Seq<char>,
    has_book: bool,
) -> Option<i32> {
    match channel_market(channel) {
        Some(id) => if has_book && (kind == "subscribed/order_book"@ || kind
            == "update/order_book"@) && market_at(markets, id as int) < markets.len() {
            Some(id)
        } else {
            None
        },
        None => None,
    }
}

/// What the message makes of a market's book.
pub open spec fn book_after(m: LocalBookModel, kind: Seq<char>, book: WsBook) -> LocalBookModel {
    changed(
        if kind == "subscribed/order_book"@ {
            empty_book()
        } else {
            m
        },
        book.bids@,
        book.asks@,
    )
}

impl LighterFeed {
    pub fn new() -> (r: LighterFeed)
        ensures
            r.books@ == Map::<Seq<char>, LocalBook>::empty(),
            !r.subscribed,
    {
        LighterFeed { books: KeyMap::new(), subscribed: false }
    }

    /// Takes in a message and says what it asks for.
    pub fn on_message(
        &mut self,
        markets: &Vec<(i32, String)>,
        kind: &str,
        channel: &str,
        book: Option<&WsBook>,
        now: Instant,
    ) -> (r: LighterStep)
        ensures
            ({
                let pong = kind@ == "ping"@;
                let connects = !pong && kind@ == "connected"@ && !old(self).subscribed;
                let target = changes_market(markets@, kind@, channel@, book is Some);
                &&& final(self).subscribed == (old(self).subscribed || connects)
                &&& pong ==> r is Pong && final(self).books@ == old(self).books@
                &&& connects ==> r is Subscribe && final(self).books@ == old(self).books@
                &&& !pong && !connects ==> match target {
                    None => r is Nothing && final(self).books@ == old(self).books@,
                    Some(id) => {
                        let key = number_text(id as int);
                        let after = book_after(
                            kept_book(old(self).books@, id as int),
                            kind@,
                            *book->0,
                        );
                        &&& final(self).books@.remove(key) == old(self).books@.remove(key)
                        &&& final(self).books@.contains_key(key)
                        &&& final(self).books@[key]@ == after
                        &&& match r {
                            LighterStep::Book(p, b) => p@ == markets@[market_at(
                                markets@,
                                id as int,
                            )].1@ && shows(b, after, now),
                            LighterStep::Nothing => after.bids == Map::<int, Level>::empty()
                                || after.asks == Map::<int, Level>::empty(),
                            _ => false,
                        }
                    },
                }
            }),
    {
        proof {
            reveal_strlit("ping");
            reveal_strlit("connected");
            reveal_strlit("subscribed/order_book");
            reveal_strlit("update/order_book");
        }
        if same(kind, "ping") {
            return LighterStep::Pong;
        }
        if same(kind, "connected") && !self.subscribed {
            self.subscribed = true;
            return LighterStep::Subscribe;
        }
        let snapshot = same(kind, "subscribed/order_book");
        if !snapshot && !same(kind, "update/order_book") {
            return LighterStep::Nothing;
        }
        match book {
            None => LighterStep::Nothing,
            Some(raw) => match parse_market_id(channel) {
                None => LighterStep::Nothing,
                Some(id) => {
                    let at = find_market(markets, id);
                    if at == markets.len() {
                        return LighterStep::Nothing;
                    }
                    let ghost start = self.books@;
                    let key = int_text(id as i64);
                    let mut kept = match self.books.remove(key.as_str()) {
                        Some(b) => b,
                        None => LocalBook::new(),
                    };
                    if snapshot {
                        kept.replace(raw);
                    } else {
                        kept.apply(raw);
                    }
                    let shown = kept.bbo(now);
                    self.books.insert(key.as_str(), kept);
                    proof {
                        assert(self.books@.remove(key@) =~= start.remove(key@));
                    }
                    match shown {
                        Some(b) => LighterStep::Book(markets[at].1.clone(), b),
                        None => LighterStep::Nothing,
                    }
                },
            },
        }
    }
}

impl Default for LighterFeed {
    fn default() -> (r: LighterFeed)
        ensures
            r.books@ == Map::<Seq<char>, LocalBook>::empty(),
            !r.subscribed,
    {
        LighterFeed::new()
    }
}

/// A level with a size stands in the book at its price with that size, and one without
/// takes its price out.
pub proof fn law_a_level_stands_at_its_price(
    m: Side,
    price: Seq<char>,
    size: Seq<char>,
    px: Decimal,
)
    requires
        decimal_of_text(trimmed(price)) == Some(px),
    ensures
        size_of_text(size).units() > 0 ==> put(m, price, size).contains_key(px.units())
            && put(m, price, size)[px.units()].1 == size_of_text(size),
        size_of_text(size).units() > 0 && !m.contains_key(px.units()) ==> put(
            m,
            price,
            size,
        )[px.units()].0 == px,
        size_of_text(size).units() <= 0 ==> !put(m, price, size).contains_key(px.units()),
        forall|u: int|
            #![trigger put(m, price, size).contains_key(u)]
            u != px.units() ==> put(m, price, size).contains_key(u) == m.contains_key(u) && (
            m.contains_key(u) ==> put(m, price, size)[u] == m[u]),
{
}

/// Of several levels at one price the last one holds.
pub proof fn law_the_last_level_holds(m: Side, levels: Seq<WsLevel>, px: Decimal)
    requires
        levels.len() > 0,
        decimal_of_text(trimmed(levels.last().price@)) == Some(px),
    ensures
        put_all(m, levels).contains_key(px.units()) <==> size_of_text(
            levels.last().size@,
        ).units() > 0,
        put_all(m, levels).contains_key(px.units()) ==> put_all(m, levels)[px.units()].1
            == size_of_text(levels.last().size@),
{
}

} // verus!
