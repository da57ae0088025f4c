//! SoDEX: its list of symbols and its tickers.

use crate::clock::Instant;
use crate::decimal::{decimal_of_text, lit, Decimal};
use crate::domain::book::Bbo;
use crate::domain::symbol::{
    allowed, normalize_perp, perp_of, whitelist_allows, VenueId, VenueMarket,
};
use crate::exchange::top::{market_model, market_models, spells, top_from_texts, MarketModel};
use crate::keymap::KeyMap;
use crate::text::{
    ascii_upper, joined, same, to_ascii_upper, trim, trim_head, trimmed, without_head,
};
use vstd::prelude::*;
use vstd::string::*;

verus! {

#[derive(Debug)]
pub struct RawSymbol {
    pub id: u64,
    pub name: String,
    pub base_coin: String,
    pub status: String,
    pub min_quantity: String,
    pub quantity_precision: i32,
}

/// The coin and pair of a symbol: by its name, else by its coin.
pub open spec fn symbol_pair(name: Seq<char>, base_coin: Seq<char>) -> Option<
    (Seq<char>, Seq<char>),
> {
    match perp_of(name, "perp"@) {
        Some(p) => Some(p),
        None => if trimmed(base_coin).len() == 0 {
            None
        } else {
            perp_of(trimmed(base_coin) + "-USD"@, "perp"@)
        },
    }
}

pub fn sodex_pair(raw: &RawSymbol) -> (r: Option<(String, String)>)
    ensures
        match r {
            Some((b, p)) => symbol_pair(raw.name@, raw.base_coin@) == Some((b@, p@)),
            None => symbol_pair(raw.name@, raw.base_coin@) is None,
        },
{
    if let Some(p) = normalize_perp(raw.name.as_str(), "perp") {
        return Some(p);
    }
    let base = trim(raw.base_coin.as_str());
    if base.unicode_len() == 0 {
        return None;
    }
    normalize_perp(joined(base, "-USD").as_str(), "perp")
}

/// The market of a symbol, if it may be traded here.
pub open spec fn symbol_market(
    venue: Seq<char>,
    raw: RawSymbol,
    whitelist: Seq<String>,
) -> Option<MarketModel> {
    if raw.status@.len() > 0 && raw.status@ != "TRADING"@ {
        None
    } else {
        match symbol_pair(raw.name@, raw.base_coin@) {
            None => None,
            Some((base, pair_id)) => if !allowed(base, whitelist) {
                None
            } else {
                Some(
                    MarketModel {
                        venue,
                        raw_symbol: raw.name@,
                        pair_id,
                        base,
                        market_index: if raw.id <= i32::MAX {
                            raw.id as int
                        } else {
                            0
                        },
                        qty_precision: if raw.quantity_precision > 0 {
                            raw.quantity_precision as int
                        } else {
                            0
                        },
                        min_qty: match decimal_of_text(raw.min_quantity@) {
                            Some(d) => d,
                            None => lit(0, 0),
                        },
                        volume: None,
                    },
                )
            },
        }
    }
}

pub open spec fn symbol_markets(
    venue: Seq<char>,
    s: Seq<RawSymbol>,
    whitelist: Seq<String>,
) -> Seq<MarketModel>
    decreases s.len(),
{
    if s.len() == 0 {
        Seq::empty()
    } else {
        let init = symbol_markets(venue, s.drop_last(), whitelist);
        match symbol_market(venue, s.last(), whitelist) {
            Some(m) => init.push(m),
            None => init,
        }
    }
}

fn list_symbols(venue: &VenueId, s: &Vec<RawSymbol>, whitelist: &Vec<String>) -> (r: Vec<
    VenueMarket,
>)
    ensures
        market_models(r@) == symbol_markets(venue.0@, s@, whitelist@),
{
    let mut out: Vec<VenueMarket> = Vec::new();
    let mut i: usize = 0;
    proof {
        assert(s@.take(0) =~= Seq::empty());
        assert(market_models(out@) =~= Seq::empty());
    }
    while i < s.len()
        invariant
            i <= s@.len(),
            market_models(out@) == symbol_markets(venue.0@, s@.take(i as int), whitelist@),
        decreases s.len() - i,
    {
        proof {
            assert(s@.take(i + 1).drop_last() =~= s@.take(i as int));
        }
        let raw = &s[i];
        if raw.status.as_str().unicode_len() == 0 || same(raw.status.as_str(), "TRADING") {
            if let Some((base, pair_id)) = sodex_pair(raw) {
                if whitelist_allows(base.as_str(), whitelist.as_slice()) {
                    let ghost before = out@;
                    let market_index: i32 = if raw.id <= i32::MAX as u64 {
                        raw.id as i32
                    } else {
                        0
                    };
                    let qty_precision: u32 = if raw.quantity_precision > 0 {
                        raw.quantity_precision as u32
                    } else {
                        0
                    };
                    let min_qty = match Decimal::parse(raw.min_quantity.as_str()) {
                        Some(d) => d,
                        None => Decimal::zero(),
                    };
                    let item = VenueMarket {
                        venue: venue.clone(),
                        raw_symbol: raw.name.clone(),
                        pair_id,
                        base,
                        market_index,
                        qty_precision,
                        min_qty,
                        volume_24h_usdc: None,
                    };
                    let ghost m = market_model(item);
                    out.push(item);
                    proof {
                        assert(market_models(out@) =~= market_models(before).push(m));
                    }
                }
            }
        }
        i = i + 1;
    }
    proof {
        assert(s@.take(i as int) =~= s@);
    }
    out
}

#[derive(Clone, Copy, Debug, PartialEq, Eq, Structural)]
pub enum SodexError {
    /// The venue answered with a code other than zero.
    Code(i64),
}

/// The markets of the listed symbols.
pub fn parse_symbols(venue: &VenueId, code: i64, s: &Vec<RawSymbol>, whitelist: &Vec<String>) -> (r:
    Result<Vec<VenueMarket>, SodexError>)
    ensures
        match r {
            Ok(v) => code == 0 && market_models(v@) == symbol_markets(venue.0@, s@, whitelist@),
            Err(e) => code != 0 && e == SodexError::Code(code),
        },
{
    if code != 0 {
        return Err(SodexError::Code(code));
    }
    Ok(list_symbols(venue, s, whitelist))
}

// ---------------------------------------------------------------------------
// Tickers
// ---------------------------------------------------------------------------

/// The names under which a ticker may speak of a market.
pub open spec fn aliases_of(m: VenueMarket, q: Seq<char>) -> Seq<Seq<char>> {
    seq![
        ascii_upper(m.raw_symbol@),
        ascii_upper(m.pair_id@),
        ascii_upper(m.base@ + "-USD"@),
        ascii_upper(m.base@ + "_"@ + q),
        ascii_upper("v"@ + m.base@ + "_"@ + q),
        ascii_upper("v"@ + m.base@ + "_v"@ + without_head(q, 'V')),
    ]
}

/// `map` with `pair` under each key.
pub open spec fn under_all(map: Map<Seq<char>, String>, keys: Seq<Seq<char>>, pair: String) -> Map<
    Seq<char>,
    String,
>
    decreases keys.len(),
{
    if keys.len() == 0 {
        map
    } else {
        under_all(map, keys.drop_last(), pair).insert(keys.last(), pair)
    }
}

pub open spec fn alias_map(markets: Seq<VenueMarket>, q: Seq<char>) -> Map<Seq<char>, String>
    decreases markets.len(),
{
    if markets.len() == 0 {
        Map::empty()
    } else {
        under_all(
            alias_map(markets.drop_last(), q),
            aliases_of(markets.last(), q),
            markets.last().pair_id,
        )
    }
}

fn alias_names(m: &VenueMarket, q: &str) -> (r: Vec<String>)
    ensures
        crate::text::texts_of(r@) == aliases_of(*m, q@),
{
    let base = m.base.as_str();
    let mut out: Vec<String> = Vec::new();
    out.push(to_ascii_upper(m.raw_symbol.as_str()));
    out.push(to_ascii_upper(m.pair_id.as_str()));
    out.push(to_ascii_upper(joined(base, "-USD").as_str()));
    let dashed = joined(base, "_");
    out.push(to_ascii_upper(joined(dashed.as_str(), q).as_str()));
    let v = joined("v", base);
    let vd = joined(v.as_str(), "_");
    out.push(to_ascii_upper(joined(vd.as_str(), q).as_str()));
    let vv = joined(v.as_str(), "_v");
    out.push(to_ascii_upper(joined(vv.as_str(), trim_head(q, 'V')).as_str()));
    proof {
        assert(crate::text::texts_of(out@) =~= aliases_of(*m, q@));
    }
    out
}

/// Each market under all its names; where two share one, the later has it.
pub fn symbol_alias_map(markets: &Vec<VenueMarket>, quote: &str) -> (r: KeyMap<String>)
    ensures
        r@ == alias_map(markets@, ascii_upper(trimmed(quote@))),
{
    let q = to_ascii_upper(trim(quote));
    let mut map: KeyMap<String> = KeyMap::new();
    let mut i: usize = 0;
    proof {
        assert(markets@.take(0) =~= Seq::empty());
    }
    while i < markets.len()
        invariant
            i <= markets@.len(),
            q@ == ascii_upper(trimmed(quote@)),
            map@ == alias_map(markets@.take(i as int), q@),
        decreases markets.len() - i,
    {
        proof {
            assert(markets@.take(i + 1).drop_last() =~= markets@.take(i as int));
        }
        let m = &markets[i];
        let names = alias_names(m, q.as_str());
        let ghost all = crate::text::texts_of(names@);
        let ghost start = map@;
        let mut j: usize = 0;
        proof {
            assert(all.take(0) =~= Seq::empty());
        }
        while j < names.len()
            invariant
                j <= names@.len(),
                all == crate::text::texts_of(names@),
                map@ == under_all(start, all.take(j as int), m.pair_id),
            decreases names.len() - j,
        {
            proof {
                assert(all.take(j + 1).drop_last() =~= all.take(j as int));
            }
            map.insert(names[j].as_str(), m.pair_id.clone());
            j = j + 1;
        }
        proof {
            assert(all.take(j as int) =~= all);
        }
        i = i + 1;
    }
    proof {
        assert(markets@.take(i as int) =~= markets@);
    }
    map
}

#[derive(Debug)]
pub struct WsTicker {
    pub s: String,
    pub a: String,
    pub ask_qty: String,
    pub b: String,
    pub bid_qty: String,
}

/// The book of a ticker.
pub fn ticker_bbo(tick: &WsTicker, now: Instant) -> (r: Option<Bbo>)
    ensures
        spells(r, tick.b@, tick.bid_qty@, tick.a@, tick.ask_qty@, now),
{
    top_from_texts(
        tick.b.as_str(),
        tick.bid_qty.as_str(),
        tick.a.as_str(),
        tick.ask_qty.as_str(),
        now,
    )
}

/// A message that carries tickers.
pub open spec fn has_tickers(op: Seq<char>, channel: Seq<char>) -> bool {
    &&& op != "pong"@ && op != "ping"@ && op != "subscribe"@
    &&& channel == "allBookTicker"@ || channel == "bookTicker"@
}

pub fn carries_tickers(op: &str, channel: &str) -> (r: bool)
    ensures
        r == has_tickers(op@, channel@),
{
    !same(op, "pong") && !same(op, "ping") && !same(op, "subscribe") && (same(
        channel,
        "allBookTicker",
    ) || same(channel, "bookTicker"))
}

/// The pair that a ticker speaks of and its book, if it is about a market that is
/// followed.
pub fn on_ticker(aliases: &KeyMap<String>, tick: &WsTicker, now: Instant) -> (r: Option<
    (String, Bbo),
>)
    ensures
        ({
            let name = ascii_upper(tick.s@);
            let book = match r {
                Some((_, b)) => Some(b),
                None => None,
            };
            if aliases@.contains_key(name) {
                &&& spells(book, tick.b@, tick.bid_qty@, tick.a@, tick.ask_qty@, now)
                &&& r matches Some((p, _)) ==> p == aliases@[name]
            } else {
                r is None
            }
        }),
{
    let name = to_ascii_upper(tick.s.as_str());
    match aliases.get(name.as_str()) {
        None => None,
        Some(p) => match ticker_bbo(tick, now) {
            Some(b) => Some((p.clone(), b)),
            None => None,
        },
    }
}

} // verus!
