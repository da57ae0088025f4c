//! What the venues' readers share: the top of a book, and markets as they are
//! listed.

use crate::clock::Instant;
use crate::decimal::{decimal_of_text, lit, Decimal};
use crate::domain::book::Bbo;
use crate::domain::symbol::VenueMarket;
use crate::text::{trim, trimmed};
use vstd::prelude::*;

verus! {

/// Both prices are above zero and the ask is above the bid.
pub open spec fn is_open(bid: Decimal, ask: Decimal) -> bool {
    bid.units() > 0 && ask.units() > 0 && ask.units() > bid.units()
}

/// `b` holds one level on each side.
pub open spec fn is_top(
    b: Bbo,
    bid: Decimal,
    bid_qty: Decimal,
    ask: Decimal,
    ask_qty: Decimal,
    now: Instant,
) -> bool {
    &&& b.bid == bid
    &&& b.ask == ask
    &&& b.bid_qty == bid_qty
    &&& b.ask_qty == ask_qty
    &&& b.bids@ == seq![(bid, bid_qty)]
    &&& b.asks@ == seq![(ask, ask_qty)]
    &&& b.ts == now
}

/// A book of one level on each side. A locked or crossed one is bad data.
pub fn top_book(bid: Decimal, bid_qty: Decimal, ask: Decimal, ask_qty: Decimal, now: Instant) -> (r:
    Option<Bbo>)
    ensures
        match r {
            Some(b) => is_open(bid, ask) && is_top(b, bid, bid_qty, ask, ask_qty, now),
            None => !is_open(bid, ask),
        },
{
    if bid <= Decimal::zero() || ask <= Decimal::zero() || ask <= bid {
        return None;
    }
    let mut bids: Vec<(Decimal, Decimal)> = Vec::new();
    bids.push((bid, bid_qty));
    let mut asks: Vec<(Decimal, Decimal)> = Vec::new();
    asks.push((ask, ask_qty));
    proof {
        assert(bids@ =~= seq![(bid, bid_qty)]);
        assert(asks@ =~= seq![(ask, ask_qty)]);
    }
    Some(Bbo { bid, ask, bid_qty, ask_qty, bids, asks, ts: now })
}

/// A quantity that cannot be read is none.
pub open spec fn size_of_text(t: Seq<char>) -> Decimal {
    match decimal_of_text(trimmed(t)) {
        Some(d) => d,
        None => lit(0, 0),
    }
}

pub fn read_size(t: &str) -> (r: Decimal)
    ensures
        r == size_of_text(t@),
{
    match Decimal::parse(trim(t)) {
        Some(d) => d,
        None => Decimal::zero(),
    }
}

/// `r` is the book that the texts spell, or nothing where a price cannot be read
/// or the book is not open.
pub open spec fn spells(
    r: Option<Bbo>,
    bid: Seq<char>,
    bid_qty: Seq<char>,
    ask: Seq<char>,
    ask_qty: Seq<char>,
    now: Instant,
) -> bool {
    match (decimal_of_text(trimmed(bid)), decimal_of_text(trimmed(ask))) {
        (Some(b), Some(a)) => match r {
            Some(x) => is_open(b, a) && is_top(
                x,
                b,
                size_of_text(bid_qty),
                a,
                size_of_text(ask_qty),
                now,
            ),
            None => !is_open(b, a),
        },
        _ => r is None,
    }
}

pub fn top_from_texts(bid: &str, bid_qty: &str, ask: &str, ask_qty: &str, now: Instant) -> (r: Option<
    Bbo,
>)
    ensures
        spells(r, bid@, bid_qty@, ask@, ask_qty@, now),
{
    match (Decimal::parse(trim(bid)), Decimal::parse(trim(ask))) {
        (Some(b), Some(a)) => top_book(b, read_size(bid_qty), a, read_size(ask_qty), now),
        _ => None,
    }
}

/// Subscriptions go out in batches of `every`, with a rest after each but the
/// last.
pub fn rests_after(i: usize, n: usize, every: usize) -> (r: bool)
    requires
        every > 0,
        i < usize::MAX,
    ensures
        r == (i + 1 < n && (i + 1) % every as int == 0),
{
    i + 1 < n && (i + 1) % every == 0
}

/// A market as it is listed.
pub struct MarketModel {
    pub venue: Seq<char>,
    pub raw_symbol: Seq<char>,
    pub pair_id: Seq<char>,
    pub base: Seq<char>,
    pub market_index: int,
    pub qty_precision: int,
    pub min_qty: Decimal,
    pub volume: Option<Decimal>,
}

pub open spec fn market_model(m: VenueMarket) -> MarketModel {
    MarketModel {
        venue: m.venue.0@,
        raw_symbol: m.raw_symbol@,
        pair_id: m.pair_id@,
        base: m.base@,
        market_index: m.market_index as int,
        qty_precision: m.qty_precision as int,
        min_qty: m.min_qty,
        volume: m.volume_24h_usdc,
    }
}

pub open spec fn market_models(s: Seq<VenueMarket>) -> Seq<MarketModel> {
    s.map_values(|m: VenueMarket| market_model(m))
}

} // verus!
