//! Whether books are good enough to trade on.

use crate::app::verdict::{or_else, said, Said, Verdict};
use crate::clock::Instant;
use crate::config::AppConfig;
use crate::decimal::{dmax, lit, ArithError, Decimal};
use crate::domain::book::Bbo;
use crate::domain::symbol::Pair;
use vstd::prelude::*;

verus! {

/// What is wrong with the age or the prices of two books.
pub open spec fn freshness(freshness_ms: int, buy: Bbo, sell: Bbo, now: Instant) -> Said {
    if !buy.fresh(freshness_ms, now) || !sell.fresh(freshness_ms, now) {
        Ok(Some("stale"@))
    } else if !buy.sound() || !sell.sound() {
        Ok(Some("invalid_bbo"@))
    } else {
        Ok(None)
    }
}

pub fn books_fresh_ok(cfg: &AppConfig, buy: &Bbo, sell: &Bbo, now: Instant) -> (r: Verdict)
    ensures
        said(r) == freshness(cfg.system.data_freshness_ms as int, *buy, *sell, now),
{
    let ms = cfg.system.data_freshness_ms;
    if !buy.is_fresh(ms, now) || !sell.is_fresh(ms, now) {
        return Ok(Err("stale"));
    }
    if !buy.valid() || !sell.valid() {
        return Ok(Err("invalid_bbo"));
    }
    Ok(Ok(()))
}

/// What is wrong with the width of a book.
pub open spec fn width(max_own: Decimal, b: Bbo) -> Said {
    match b.own_spread() {
        Err(e) => Err(e),
        Ok(None) => Ok(Some("invalid_bbo"@)),
        Ok(Some(s)) => if s.units() > max_own.units() {
            Ok(Some("wide_book"@))
        } else {
            Ok(None)
        },
    }
}

/// What is wrong with the width of two books. A limit of zero does not ask.
pub open spec fn widths(max_own: Decimal, buy: Bbo, sell: Bbo) -> Said {
    if max_own.units() > 0 {
        or_else(width(max_own, buy), width(max_own, sell))
    } else {
        Ok(None)
    }
}

fn width_ok(max_own: Decimal, b: &Bbo) -> (r: Verdict)
    ensures
        said(r) == width(max_own, *b),
{
    match b.own_spread_pct()? {
        None => Ok(Err("invalid_bbo")),
        Some(s) => if s > max_own {
            Ok(Err("wide_book"))
        } else {
            Ok(Ok(()))
        },
    }
}

/// Asked before adding and before reducing: on a venue whose spread is too wide
/// nothing is placed.
pub fn books_own_spread_ok(cfg: &AppConfig, buy: &Bbo, sell: &Bbo) -> (r: Verdict)
    ensures
        said(r) == widths(cfg.risk.max_venue_spread_pct, *buy, *sell),
{
    let max_own = cfg.risk.max_venue_spread_pct;
    if !max_own.is_positive() {
        return Ok(Ok(()));
    }
    match width_ok(max_own, buy)? {
        Err(word) => Ok(Err(word)),
        Ok(_) => width_ok(max_own, sell),
    }
}

/// What is wrong with two books, depth left out.
pub open spec fn quality(cfg: AppConfig, buy: Bbo, sell: Bbo, now: Instant) -> Said {
    or_else(
        freshness(cfg.system.data_freshness_ms as int, buy, sell, now),
        widths(cfg.risk.max_venue_spread_pct, buy, sell),
    )
}

pub fn books_quality_ok(cfg: &AppConfig, buy: &Bbo, sell: &Bbo, now: Instant) -> (r: Verdict)
    ensures
        said(r) == quality(*cfg, *buy, *sell, now),
{
    match books_fresh_ok(cfg, buy, sell, now)? {
        Err(word) => Ok(Err(word)),
        Ok(_) => books_own_spread_ok(cfg, buy, sell),
    }
}

/// The least that must stand at the best prices: the largest of the floor, a
/// step, what is to be placed and what the legs take at least.
pub open spec fn depth_floor(
    cfg: AppConfig,
    pair: Pair,
    book_floor: Decimal,
    probe_qty: Decimal,
) -> Result<Decimal, ArithError> {
    let legs_min = dmax(pair.legs@[0].min_qty, pair.legs@[1].min_qty);
    match cfg.grid_of(
        pair.legs@[0].base@,
        pair.legs@[0].venue.0@,
        pair.legs@[1].venue.0@,
        legs_min,
    ) {
        Err(e) => Err(e),
        Ok(g) => {
            let step = match g {
                Some(p) => p.base_qty,
                None => lit(0, 0),
            };
            Ok(dmax(dmax(dmax(book_floor, step), probe_qty), legs_min))
        },
    }
}

/// What is wrong with the depth of two books.
pub open spec fn thickness(floor: Decimal, buy: Bbo, sell: Bbo) -> Said {
    if floor.units() <= 0 {
        Ok(Some("no_min_qty"@))
    } else if buy.ask_qty.units() < floor.units() || buy.bid_qty.units() < floor.units()
        || sell.ask_qty.units() < floor.units() || sell.bid_qty.units() < floor.units() {
        Ok(Some("thin_book"@))
    } else {
        Ok(None)
    }
}

/// What is wrong with two books to open on.
pub open spec fn tradable(
    cfg: AppConfig,
    pair: Pair,
    buy: Bbo,
    sell: Bbo,
    book_floor: Decimal,
    probe_qty: Decimal,
    now: Instant,
) -> Said {
    or_else(
        quality(cfg, buy, sell, now),
        match depth_floor(cfg, pair, book_floor, probe_qty) {
            Ok(f) => thickness(f, buy, sell),
            Err(e) => Err(e),
        },
    )
}

/// Asked before opening. `book_floor` is the depth that is asked of the coin,
/// zero where nothing is: then the legs' own smallest quantities still count.
pub fn books_tradable(
    cfg: &AppConfig,
    pair: &Pair,
    buy: &Bbo,
    sell: &Bbo,
    book_floor: Decimal,
    probe_qty: Decimal,
    now: Instant,
) -> (r: Verdict)
    ensures
        said(r) == tradable(*cfg, *pair, *buy, *sell, book_floor, probe_qty, now),
{
    match books_quality_ok(cfg, buy, sell, now)? {
        Err(word) => {
            return Ok(Err(word));
        },
        Ok(_) => {},
    }
    let legs_min = pair.min_qty();
    let step = match cfg.grid_for(
        pair.legs[0].base.as_str(),
        pair.legs[0].venue.as_str(),
        pair.legs[1].venue.as_str(),
        legs_min,
    )? {
        Some(p) => p.base_qty,
        None => Decimal::zero(),
    };
    let floor = book_floor.max(step).max(probe_qty).max(legs_min);
    if !floor.is_positive() {
        return Ok(Err("no_min_qty"));
    }
    if buy.ask_qty < floor || buy.bid_qty < floor || sell.ask_qty < floor || sell.bid_qty < floor {
        return Ok(Err("thin_book"));
    }
    Ok(Ok(()))
}

/// Books that may be opened on are fresh, sound and not too wide.
pub proof fn law_tradable_books_are_good(
    cfg: AppConfig,
    pair: Pair,
    buy: Bbo,
    sell: Bbo,
    book_floor: Decimal,
    probe_qty: Decimal,
    now: Instant,
)
    requires
        tradable(cfg, pair, buy, sell, book_floor, probe_qty, now) == Ok::<
            Option<Seq<char>>,
            ArithError,
        >(None),
    ensures
        buy.sound() && sell.sound(),
        buy.fresh(cfg.system.data_freshness_ms as int, now),
        sell.fresh(cfg.system.data_freshness_ms as int, now),
        quality(cfg, buy, sell, now) == Ok::<Option<Seq<char>>, ArithError>(None),
{
}

/// Books that may be opened on hold, at each of the four best prices, what is asked of the coin,
/// a step, what is to be placed and what either leg takes at least; neither is wider than a
/// venue may be; and they are neither old nor crossed.
pub proof fn law_tradable_books_are_deep_and_tight(
    cfg: AppConfig,
    pair: Pair,
    buy: Bbo,
    sell: Bbo,
    book_floor: Decimal,
    probe_qty: Decimal,
    now: Instant,
    q: Decimal,
)
    requires
        tradable(cfg, pair, buy, sell, book_floor, probe_qty, now) == Ok::<
            Option<Seq<char>>,
            ArithError,
        >(None),
        q == buy.ask_qty || q == buy.bid_qty || q == sell.ask_qty || q == sell.bid_qty,
    ensures
        q.units() > 0,
        q.units() >= book_floor.units(),
        q.units() >= probe_qty.units(),
        q.units() >= pair.legs@[0].min_qty.units(),
        q.units() >= pair.legs@[1].min_qty.units(),
        cfg.grid_of(
            pair.legs@[0].base@,
            pair.legs@[0].venue.0@,
            pair.legs@[1].venue.0@,
            dmax(pair.legs@[0].min_qty, pair.legs@[1].min_qty),
        ) matches Ok(Some(g)) ==> q.units() >= g.base_qty.units(),
        cfg.risk.max_venue_spread_pct.units() > 0 ==> {
            &&& buy.own_spread() matches Ok(Some(s)) && s.units()
                <= cfg.risk.max_venue_spread_pct.units()
            &&& sell.own_spread() matches Ok(Some(s)) && s.units()
                <= cfg.risk.max_venue_spread_pct.units()
        },
{
}

/// Books that are neither old nor crossed nor too wide are turned away only for want of depth.
pub proof fn law_good_books_are_only_turned_away_for_depth(
    cfg: AppConfig,
    pair: Pair,
    buy: Bbo,
    sell: Bbo,
    book_floor: Decimal,
    probe_qty: Decimal,
    now: Instant,
    floor: Decimal,
)
    requires
        quality(cfg, buy, sell, now) == Ok::<Option<Seq<char>>, ArithError>(None),
        depth_floor(cfg, pair, book_floor, probe_qty) == Ok::<Decimal, ArithError>(floor),
        floor.units() > 0,
    ensures
        tradable(cfg, pair, buy, sell, book_floor, probe_qty, now) == Ok::<
            Option<Seq<char>>,
            ArithError,
        >(None) <==> buy.ask_qty.units() >= floor.units() && buy.bid_qty.units() >= floor.units()
            && sell.ask_qty.units() >= floor.units() && sell.bid_qty.units() >= floor.units(),
        floor == book_floor || floor == probe_qty || floor == pair.legs@[0].min_qty || floor
            == pair.legs@[1].min_qty || (cfg.grid_of(
            pair.legs@[0].base@,
            pair.legs@[0].venue.0@,
            pair.legs@[1].venue.0@,
            dmax(pair.legs@[0].min_qty, pair.legs@[1].min_qty),
        ) matches Ok(Some(g)) && floor == g.base_qty),
{
    broadcast use crate::decimal::lemma_lit, crate::decimal::lemma_sign;

}

} // verus!
