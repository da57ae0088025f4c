//! Entropy: the markets of one builder's exchange on Hyperliquid.

use crate::clock::Instant;
use crate::decimal::{lit, Decimal};
use crate::domain::book::Bbo;
use crate::domain::symbol::{
    allowed, normalize_perp, perp_of, whitelist_allows, VenueId, VenueMarket,
};
use crate::exchange::top::{market_model, market_models, spells, top_from_texts, MarketModel};
use crate::text::{
    ends_with, has_suffix, joined, same, same_but_case, same_ignoring_case, trim_tail, without_tail,
};
use vstd::prelude::*;

verus! {

/// How many subscriptions go out between rests.
pub const SUBSCRIBE_BATCH: usize = 20;

/// The address that answers questions.
pub open spec fn info_address(rest: Seq<char>) -> Seq<char> {
    let r = without_tail(rest, "/"@);
    if has_suffix(r, "/info"@) {
        r
    } else {
        r + "/info"@
    }
}

pub fn info_url(rest: &str) -> (r: String)
    ensures
        r@ == info_address(rest@),
{
    let t = trim_tail(rest, "/");
    if ends_with(t, "/info") {
        t.to_owned()
    } else {
        joined(t, "/info")
    }
}

/// Where an exchange stands in the list, or its length. An entry without a name
/// counts as a place.
pub open spec fn dex_at(dexes: Seq<Option<String>>, name: Seq<char>) -> int
    decreases dexes.len(),
{
    if dexes.len() == 0 {
        0
    } else if dexes[0] is Some && same_ignoring_case(dexes[0]->0@, name) {
        0
    } else {
        1 + dex_at(dexes.drop_first(), name)
    }
}

pub fn perp_dex_index(dexes: &Vec<Option<String>>, name: &str) -> (r: Option<i32>)
    ensures
        ({
            let i = dex_at(dexes@, name@);
            r == (if i < dexes@.len() && i <= i32::MAX {
                Some(i as i32)
            } else {
                None
            })
        }),
{
    let mut i: usize = 0;
    proof {
        assert(dexes@.skip(0) =~= dexes@);
    }
    while i < dexes.len()
        invariant
            i <= dexes@.len(),
            dex_at(dexes@, name@) == i + dex_at(dexes@.skip(i as int), name@),
        decreases dexes.len() - i,
    {
        proof {
            assert(dexes@.skip(i as int).drop_first() =~= dexes@.skip(i + 1));
            assert(dexes@.skip(i as int)[0] == dexes@[i as int]);
        }
        if let Some(n) = &dexes[i] {
            if same_but_case(n.as_str(), name) {
                return if i <= i32::MAX as usize {
                    Some(i as i32)
                } else {
                    None
                };
            }
        }
        i = i + 1;
    }
    None
}

/// The number under which an asset is traded.
pub open spec fn asset_id(dex_index: int, index_in_meta: int) -> int {
    100_000 + dex_index * 10_000 + index_in_meta
}

/// The numbers of an exchange's first `len` assets fit 32 bits.
pub open spec fn ids_fit(dex_index: int, len: int) -> bool {
    let n = if len > 0x8000_0000 {
        0x8000_0000
    } else {
        len
    };
    &&& i32::MIN <= dex_index * 10_000 <= i32::MAX
    &&& asset_id(dex_index, 0) <= i32::MAX
    &&& asset_id(dex_index, n) <= 0x8000_0000
}

pub fn hip3_asset_id(dex_index: i32, index_in_meta: i32) -> (r: i32)
    requires
        i32::MIN <= dex_index * 10_000 <= i32::MAX,
        asset_id(dex_index as int, 0) <= i32::MAX,
        i32::MIN <= asset_id(dex_index as int, index_in_meta as int) <= i32::MAX,
    ensures
        r == asset_id(dex_index as int, index_in_meta as int),
{
    100_000 + dex_index * 10_000 + index_in_meta
}

pub fn asset_ids_fit(dex_index: i32, len: usize) -> (r: bool)
    ensures
        r == ids_fit(dex_index as int, len as int),
{
    let n: i64 = if len > 0x8000_0000 {
        0x8000_0000
    } else {
        len as i64
    };
    let d: i64 = dex_index as i64 * 10_000;
    i32::MIN as i64 <= d && d <= i32::MAX as i64 && 100_000 + d <= i32::MAX as i64 && 100_000 + d
        + n <= 0x8000_0000
}

#[derive(Debug)]
pub struct RawAsset {
    pub name: String,
    pub sz_decimals: u32,
    pub is_delisted: bool,
}

#[derive(Clone, Copy, Debug, PartialEq, Eq, Structural)]
pub enum EntropyError {
    /// The answer has no list of assets.
    MissingMeta,
    /// The exchange is not in the list.
    UnknownDex,
}

/// The market of an asset, if it is one that may be traded here.
pub open spec fn asset_market(
    venue: Seq<char>,
    dex_index: int,
    i: int,
    raw: RawAsset,
    whitelist: Seq<String>,
) -> Option<MarketModel> {
    match perp_of(raw.name@, "perp"@) {
        None => None,
        Some((base, pair_id)) => if raw.is_delisted || !allowed(base, whitelist) {
            None
        } else {
            Some(
                MarketModel {
                    venue,
                    raw_symbol: raw.name@,
                    pair_id,
                    base,
                    market_index: asset_id(
                        dex_index,
                        if i <= i32::MAX {
                            i
                        } else {
                            0
                        },
                    ),
                    qty_precision: raw.sz_decimals as int,
                    min_qty: lit(
                        1,
                        if raw.sz_decimals < 18 {
                            raw.sz_decimals as int
                        } else {
                            18
                        },
                    ),
                    volume: None,
                },
            )
        },
    }
}

pub open spec fn asset_markets(
    venue: Seq<char>,
    dex_index: int,
    universe: Seq<RawAsset>,
    whitelist: Seq<String>,
) -> Seq<MarketModel>
    decreases universe.len(),
{
    if universe.len() == 0 {
        Seq::empty()
    } else {
        let init = asset_markets(venue, dex_index, universe.drop_last(), whitelist);
        match asset_market(venue, dex_index, universe.len() - 1, universe.last(), whitelist) {
            Some(m) => init.push(m),
            None => init,
        }
    }
}

fn list_assets(
    venue: &VenueId,
    dex_index: i32,
    universe: &Vec<RawAsset>,
    whitelist: &Vec<String>,
) -> (r: Vec<VenueMarket>)
    requires
        ids_fit(dex_index as int, universe@.len() as int),
    ensures
        market_models(r@) == asset_markets(
            venue.0@,
            dex_index as int,
            universe@,
            whitelist@,
        ),
{
    let mut out: Vec<VenueMarket> = Vec::new();
    let mut i: usize = 0;
    proof {
        assert(universe@.take(0) =~= Seq::empty());
        assert(market_models(out@) =~= Seq::empty());
    }
    while i < universe.len()
        invariant
            i <= universe@.len(),
            ids_fit(dex_index as int, universe@.len() as int),
            market_models(out@) == asset_markets(
                venue.0@,
                dex_index as int,
                universe@.take(i as int),
                whitelist@,
            ),
        decreases universe.len() - i,
    {
        proof {
            assert(universe@.take(i + 1).drop_last() =~= universe@.take(i as int));
        }
        let raw = &universe[i];
        if !raw.is_delisted {
            if let Some((base, pair_id)) = normalize_perp(raw.name.as_str(), "perp") {
                if whitelist_allows(base.as_str(), whitelist.as_slice()) {
                    let ghost before = out@;
                    let index: i32 = if i <= i32::MAX as usize {
                        i as i32
                    } else {
                        0
                    };
                    let scale: u32 = if raw.sz_decimals < 18 {
                        raw.sz_decimals
                    } else {
                        18
                    };
                    let item = VenueMarket {
                        venue: venue.clone(),
                        raw_symbol: raw.name.clone(),
                        pair_id,
                        base,
                        market_index: hip3_asset_id(dex_index, index),
                        qty_precision: raw.sz_decimals,
                        min_qty: Decimal::new(1, scale),
                        volume_24h_usdc: None,
                    };
                    let ghost m = market_model(item);
                    out.push(item);
                    proof {
                        assert(market_models(out@) =~= market_models(before).push(m));
                    }
                }
            }
        }
        i = i + 1;
    }
    proof {
        assert(universe@.take(i as int) =~= universe@);
    }
    out
}

/// The markets of the listed assets.
pub fn parse_io_markets(
    venue: &VenueId,
    dex_index: i32,
    universe: Option<&Vec<RawAsset>>,
    whitelist: &Vec<String>,
) -> (r: Result<Vec<VenueMarket>, EntropyError>)
    requires
        universe matches Some(u) ==> ids_fit(dex_index as int, u@.len() as int),
    ensures
        match (universe, r) {
            (Some(u), Ok(v)) => market_models(v@) == asset_markets(
                venue.0@,
                dex_index as int,
                u@,
                whitelist@,
            ),
            (None, Err(e)) => e == EntropyError::MissingMeta,
            _ => false,
        },
{
    match universe {
        Some(u) => Ok(list_assets(venue, dex_index, u, whitelist)),
        None => Err(EntropyError::MissingMeta),
    }
}

// ---------------------------------------------------------------------------
// Books
// ---------------------------------------------------------------------------

#[derive(Debug)]
pub struct WsLevel {
    pub px: String,
    pub sz: String,
}

pub fn level_pair_to_bbo(bid: &WsLevel, ask: &WsLevel, now: Instant) -> (r: Option<Bbo>)
    ensures
        spells(r, bid.px@, bid.sz@, ask.px@, ask.sz@, now),
{
    top_from_texts(bid.px.as_str(), bid.sz.as_str(), ask.px.as_str(), ask.sz.as_str(), now)
}

/// `r` is the book of the best bid and the best ask, if both are there.
pub open spec fn levels_spell(r: Option<Bbo>, levels: Seq<Option<WsLevel>>, now: Instant) -> bool {
    if levels.len() >= 2 && levels[0] is Some && levels[1] is Some {
        spells(
            r,
            levels[0]->0.px@,
            levels[0]->0.sz@,
            levels[1]->0.px@,
            levels[1]->0.sz@,
            now,
        )
    } else {
        r is None
    }
}

pub fn bbo_from_levels(levels: &Vec<Option<WsLevel>>, now: Instant) -> (r: Option<Bbo>)
    ensures
        levels_spell(r, levels@, now),
{
    if levels.len() < 2 {
        return None;
    }
    match (&levels[0], &levels[1]) {
        (Some(bid), Some(ask)) => level_pair_to_bbo(bid, ask, now),
        _ => None,
    }
}

/// The book of the first level on each side.
pub fn bbo_from_l2(levels: &Vec<Vec<WsLevel>>, now: Instant) -> (r: Option<Bbo>)
    ensures
        if levels@.len() >= 2 && levels@[0]@.len() > 0 && levels@[1]@.len() > 0 {
            spells(
                r,
                levels@[0]@[0].px@,
                levels@[0]@[0].sz@,
                levels@[1]@[0].px@,
                levels@[1]@[0].sz@,
                now,
            )
        } else {
            r is None
        },
{
    if levels.len() < 2 || levels[0].len() == 0 || levels[1].len() == 0 {
        return None;
    }
    level_pair_to_bbo(&levels[0][0], &levels[1][0], now)
}

#[derive(Debug)]
pub struct WsBbo {
    pub coin: String,
    pub bbo: Vec<Option<WsLevel>>,
}

/// Where a coin stands among those that are followed, or their number.
pub open spec fn coin_at(coins: Seq<(String, String)>, coin: Seq<char>) -> int
    decreases coins.len(),
{
    if coins.len() == 0 || same_ignoring_case(coins[0].0@, coin) {
        0
    } else {
        1 + coin_at(coins.drop_first(), coin)
    }
}

fn find_coin(coins: &Vec<(String, String)>, coin: &str) -> (r: usize)
    ensures
        r == coin_at(coins@, coin@),
        r <= coins@.len(),
{
    let mut i: usize = 0;
    proof {
        assert(coins@.skip(0) =~= coins@);
    }
    while i < coins.len()
        invariant
            i <= coins@.len(),
            coin_at(coins@, coin@) == i + coin_at(coins@.skip(i as int), coin@),
        decreases coins.len() - i,
    {
        proof {
            assert(coins@.skip(i as int).drop_first() =~= coins@.skip(i + 1));
            assert(coins@.skip(i as int)[0] == coins@[i as int]);
        }
        if same_but_case(coins[i].0.as_str(), coin) {
            return i;
        }
        i = i + 1;
    }
    i
}

/// What a message says of a book: the pair and the book, if it is about a coin
/// that is followed.
pub fn on_message(
    coins: &Vec<(String, String)>,
    channel: &str,
    data: Option<&WsBbo>,
    now: Instant,
) -> (r: Option<(String, Bbo)>)
    ensures
        match data {
            Some(d) => {
                let i = coin_at(coins@, d.coin@);
                if channel@ == "bbo"@ && i < coins@.len() {
                    match r {
                        Some((p, b)) => p@ == coins@[i].1@ && levels_spell(Some(b), d.bbo@, now),
                        None => levels_spell(None, d.bbo@, now),
                    }
                } else {
                    r is None
                }
            },
            None => r is None,
        },
{
    if !same(channel, "bbo") {
        return None;
    }
    match data {
        None => None,
        Some(d) => {
            let i = find_coin(coins, d.coin.as_str());
            if i == coins.len() {
                return None;
            }
            match bbo_from_levels(&d.bbo, now) {
                Some(b) => Some((coins[i].1.clone(), b)),
                None => None,
            }
        },
    }
}

/// Two assets never go by one number, as long as no exchange has ten thousand of them,
/// and the first exchange's numbers follow one hundred and ten thousand.
pub proof fn law_every_asset_has_its_own_number(dex: int, index: int, dex2: int, index2: int)
    requires
        0 <= index < 10_000,
        0 <= index2 < 10_000,
        asset_id(dex, index) == asset_id(dex2, index2),
    ensures
        dex == dex2,
        index == index2,
        asset_id(dex, index + 1) == asset_id(dex, index) + 1,
        asset_id(1, index) == 110_000 + index,
{
}

} // verus!
