//! Which markets, pairs and coins a scan keeps.

use crate::app::scan::{
    cell_of, CoarseCfg, ScanEngine, ScanModel, ScanRow, ScanVenueCell, ScoredPair,
};
use crate::app::window_spread::{own_spread_mid, own_spread_mid_pct};
use crate::clock::Instant;
use crate::decimal::{adds_exactly, some_calc, sum, ArithError, Decimal};
use crate::domain::book::{read_book, Bbo, BookMap};
use crate::domain::symbol::{family, is_cross_dex, slot_key, slot_text, Pair, VenueMarket};
use crate::keymap::{lists_in_order, KeyMap, KeySet};
use crate::ranking::{in_order, law_ranked_in_order, ranked, sort, Ranked};
use crate::text::{lemma_lex_three, lex_lt, same, text_lt};
use vstd::prelude::*;

verus! {

// ---------------------------------------------------------------------------
// Markets
// ---------------------------------------------------------------------------

/// A market trades more than `min` in a day, and the venue says so.
pub open spec fn is_traded(m: VenueMarket, min: Decimal) -> bool {
    m.volume_24h_usdc is Some && m.volume_24h_usdc->0.units() > min.units()
}

fn volume_ok(m: &VenueMarket, min: Decimal) -> (r: bool)
    ensures
        r == is_traded(*m, min),
{
    match m.volume_24h_usdc {
        Some(v) => v > min,
        None => false,
    }
}

/// The markets that trade enough.
pub open spec fn traded(s: Seq<VenueMarket>, min: Decimal) -> Seq<VenueMarket>
    decreases s.len(),
{
    if s.len() == 0 {
        Seq::empty()
    } else {
        let init = traded(s.drop_last(), min);
        if is_traded(s.last(), min) {
            init.push(s.last())
        } else {
            init
        }
    }
}

/// The lists of the venues that have such a market.
pub open spec fn kept_venues(s: Seq<(String, Vec<VenueMarket>)>, min: Decimal) -> Seq<
    Seq<VenueMarket>,
>
    decreases s.len(),
{
    if s.len() == 0 {
        Seq::empty()
    } else {
        let init = kept_venues(s.drop_last(), min);
        let ok = traded(s.last().1@, min);
        if ok.len() == 0 {
            init
        } else {
            init.push(ok)
        }
    }
}

/// The venues that have none.
pub open spec fn dropped_venues(s: Seq<(String, Vec<VenueMarket>)>, min: Decimal) -> Seq<String>
    decreases s.len(),
{
    if s.len() == 0 {
        Seq::empty()
    } else {
        let init = dropped_venues(s.drop_last(), min);
        if traded(s.last().1@, min).len() == 0 {
            init.push(s.last().0)
        } else {
            init
        }
    }
}

fn traded_of(s: &Vec<VenueMarket>, min: Decimal) -> (r: Vec<VenueMarket>)
    ensures
        r@ == traded(s@, min),
{
    let mut out: Vec<VenueMarket> = Vec::new();
    let mut i: usize = 0;
    proof {
        assert(s@.take(0) =~= Seq::empty());
    }
    while i < s.len()
        invariant
            i <= s@.len(),
            out@ == traded(s@.take(i as int), min),
        decreases s.len() - i,
    {
        proof {
            assert(s@.take(i + 1).drop_last() =~= s@.take(i as int));
        }
        if volume_ok(&s[i], min) {
            out.push(s[i].clone());
        }
        i = i + 1;
    }
    proof {
        assert(s@.take(i as int) =~= s@);
    }
    out
}

/// The markets that trade more than `min_volume`, venue by venue, and the venues
/// that are left with none: those that say nothing of what is traded among them.
pub fn filter_scan_markets(listed: Vec<(String, Vec<VenueMarket>)>, min_volume: Decimal) -> (r: (
    Vec<Vec<VenueMarket>>,
    Vec<String>,
))
    ensures
        r.0@.map_values(|v: Vec<VenueMarket>| v@) == kept_venues(listed@, min_volume),
        r.1@ == dropped_venues(listed@, min_volume),
{
    let mut kept: Vec<Vec<VenueMarket>> = Vec::new();
    let mut dropped: Vec<String> = Vec::new();
    let mut i: usize = 0;
    proof {
        assert(listed@.take(0) =~= Seq::empty());
        assert(kept@.map_values(|v: Vec<VenueMarket>| v@) =~= Seq::empty());
    }
    while i < listed.len()
        invariant
            i <= listed@.len(),
            kept@.map_values(|v: Vec<VenueMarket>| v@) == kept_venues(
                listed@.take(i as int),
                min_volume,
            ),
            dropped@ == dropped_venues(listed@.take(i as int), min_volume),
        decreases listed.len() - i,
    {
        let ghost before = kept@;
        proof {
            assert(listed@.take(i + 1).drop_last() =~= listed@.take(i as int));
        }
        let ok = traded_of(&listed[i].1, min_volume);
        if ok.len() == 0 {
            dropped.push(listed[i].0.clone());
        } else {
            let ghost x = ok@;
            kept.push(ok);
            proof {
                assert(kept@.map_values(|v: Vec<VenueMarket>| v@) =~= before.map_values(
                    |v: Vec<VenueMarket>| v@,
                ).push(x));
            }
        }
        i = i + 1;
    }
    proof {
        assert(listed@.take(i as int) =~= listed@);
    }
    (kept, dropped)
}

pub fn pair_volume_ok(pair: &Pair, min: Decimal) -> (r: bool)
    ensures
        r == (is_traded(pair.legs@[0], min) && is_traded(pair.legs@[1], min)),
{
    volume_ok(&pair.legs[0], min) && volume_ok(&pair.legs[1], min)
}

// ---------------------------------------------------------------------------
// Pairs
// ---------------------------------------------------------------------------

/// A pair by its parts.
pub struct PairParts {
    pub pair_id: String,
    pub left: VenueMarket,
    pub right: VenueMarket,
}

pub open spec fn parts(p: Pair) -> PairParts {
    PairParts { pair_id: p.pair_id, left: p.legs@[0], right: p.legs@[1] }
}

/// The parts of some pairs.
pub open spec fn all_parts(s: Seq<Pair>) -> Seq<PairParts> {
    s.map_values(|p: Pair| parts(p))
}

impl PairParts {
    pub open spec fn slot(self) -> Seq<char> {
        slot_text(self.pair_id@, self.left.venue.0@, self.right.venue.0@)
    }
}

/// One of the pairs has the slot.
pub open spec fn has_slot(s: Seq<PairParts>, slot: Seq<char>) -> bool {
    exists|i: int| 0 <= i < s.len() && (#[trigger] s[i]).slot() == slot
}

/// One of the pairs is of the coin.
pub open spec fn has_coin(s: Seq<Pair>, id: Seq<char>) -> bool {
    exists|i: int| 0 <= i < s.len() && (#[trigger] s[i]).pair_id@ == id
}

pub fn holds_slot(s: &Vec<Pair>, slot: &str) -> (r: bool)
    ensures
        r == has_slot(all_parts(s@), slot@),
{
    let mut i: usize = 0;
    while i < s.len()
        invariant
            i <= s@.len(),
            forall|j: int| 0 <= j < i ==> (#[trigger] all_parts(s@)[j]).slot() != slot@,
        decreases s.len() - i,
    {
        let key = s[i].slot_key();
        proof {
            assert(all_parts(s@)[i as int].slot() == key@);
        }
        if same(key.as_str(), slot) {
            return true;
        }
        i = i + 1;
    }
    false
}

fn holds_coin(s: &[Pair], id: &str) -> (r: bool)
    ensures
        r == has_coin(s@, id@),
{
    let mut i: usize = 0;
    while i < s.len()
        invariant
            i <= s@.len(),
            forall|j: int| 0 <= j < i ==> (#[trigger] s@[j]).pair_id@ != id@,
        decreases s.len() - i,
    {
        if same(s[i].pair_id.as_str(), id) {
            return true;
        }
        i = i + 1;
    }
    false
}

/// Puts a pair behind the others.
pub fn put_pair(out: &mut Vec<Pair>, p: &Pair)
    ensures
        all_parts(final(out)@) == all_parts(old(out)@).push(parts(*p)),
{
    let ghost before = out@;
    out.push(p.clone());
    proof {
        assert(all_parts(out@) =~= all_parts(before).push(parts(*p)));
    }
}

/// The pairs of the candidates' coins, each slot once.
pub open spec fn widened(s: Seq<Pair>, candidates: Seq<Pair>) -> Seq<PairParts>
    decreases s.len(),
{
    if s.len() == 0 {
        Seq::empty()
    } else {
        let init = widened(s.drop_last(), candidates);
        let p = s.last();
        if has_coin(candidates, p.pair_id@) && !has_slot(init, p.slot()) {
            init.push(parts(p))
        } else {
            init
        }
    }
}

/// The candidates and all other pairs of their coins: the columns of the venues
/// on which no candidate trades are filled from those.
pub fn expand_scan_subscribe(candidates: &[Pair], universe: &[Pair]) -> (r: Vec<Pair>)
    ensures
        all_parts(r@) == widened(candidates@ + universe@, candidates@),
{
    let mut out: Vec<Pair> = Vec::new();
    let ghost all = candidates@ + universe@;
    let mut i: usize = 0;
    proof {
        assert(all.take(0) =~= Seq::empty());
        assert(all_parts(out@) =~= Seq::empty());
    }
    while i < candidates.len()
        invariant
            all == candidates@ + universe@,
            i <= candidates@.len(),
            all_parts(out@) == widened(all.take(i as int), candidates@),
        decreases candidates.len() - i,
    {
        proof {
            assert(all.take(i + 1).drop_last() =~= all.take(i as int));
        }
        let p = &candidates[i];
        if holds_coin(candidates, p.pair_id.as_str()) && !holds_slot(&out, p.slot_key().as_str()) {
            put_pair(&mut out, p);
        }
        i = i + 1;
    }
    let mut j: usize = 0;
    while j < universe.len()
        invariant
            all == candidates@ + universe@,
            j <= universe@.len(),
            all_parts(out@) == widened(all.take(candidates@.len() + j), candidates@),
        decreases universe.len() - j,
    {
        proof {
            assert(all.take(candidates@.len() + j + 1).drop_last() =~= all.take(
                candidates@.len() + j,
            ));
        }
        let p = &universe[j];
        if holds_coin(candidates, p.pair_id.as_str()) && !holds_slot(&out, p.slot_key().as_str()) {
            put_pair(&mut out, p);
        }
        j = j + 1;
    }
    proof {
        assert(all.take(candidates@.len() + j) =~= all);
    }
    out
}

/// How many candidates there may be: as configured, else four for each row of
/// the table and at least forty.
pub open spec fn candidate_limit(watch_top: int, configured: int) -> int {
    if configured > 0 {
        configured
    } else if watch_top * 4 > usize::MAX {
        usize::MAX as int
    } else if watch_top * 4 < 40 {
        40
    } else {
        watch_top * 4
    }
}

pub fn candidate_cap(watch_top: usize, configured: usize) -> (r: usize)
    ensures
        r == candidate_limit(watch_top as int, configured as int),
{
    if configured > 0 {
        return configured;
    }
    if watch_top > usize::MAX / 4 {
        return usize::MAX;
    }
    let n: usize = watch_top * 4;
    if n < 40 {
        40
    } else {
        n
    }
}

/// The books of both legs of a pair.
pub open spec fn books_of(books: BookMap, pair: Pair) -> Option<(Bbo, Bbo)> {
    match (
        books.at(pair.legs@[0].venue.0@, pair.pair_id@),
        books.at(pair.legs@[1].venue.0@, pair.pair_id@),
    ) {
        (Some(a), Some(b)) => Some((a, b)),
        _ => None,
    }
}

pub fn pair_has_books(pair: &Pair, books: &BookMap) -> (r: bool)
    ensures
        r == (books_of(*books, *pair) is Some),
{
    let left = read_book(books, pair.legs[0].venue.as_str(), pair.pair_id.as_str());
    let right = read_book(books, pair.legs[1].venue.as_str(), pair.pair_id.as_str());
    left.is_some() && right.is_some()
}

/// A book that a coarse look goes by.
pub open spec fn is_usable(b: Bbo, cfg: CoarseCfg, now: Instant) -> bool {
    (cfg.require_fresh ==> b.fresh(cfg.freshness_ms as int, now)) && b.sound()
}

/// What a coarse look says of a pair: the sum of its legs' own spreads; none
/// where a market trades too little, a book is missing, or it cannot be gone by.
pub open spec fn coarse(pair: Pair, books: BookMap, cfg: CoarseCfg, now: Instant) -> Result<
    Option<Decimal>,
    ArithError,
> {
    if !is_traded(pair.legs@[0], cfg.min_volume) || !is_traded(pair.legs@[1], cfg.min_volume) {
        Ok(None)
    } else {
        match books_of(books, pair) {
            None => Ok(None),
            Some((a, b)) => if !is_usable(a, cfg, now) || !is_usable(b, cfg, now) {
                Ok(None)
            } else {
                match (own_spread_mid(a), own_spread_mid(b)) {
                    (Err(e), _) => Err(e),
                    (Ok(None), _) => Ok(None),
                    (_, Err(e)) => Err(e),
                    (_, Ok(None)) => Ok(None),
                    (Ok(Some(x)), Ok(Some(y))) => some_calc(sum(Ok(x), Ok(y))),
                }
            },
        }
    }
}

/// The sum of the two spreads of a pair that passes the coarse look: the smaller
/// it is, the earlier the pair becomes a candidate.
pub fn coarse_spread_sum(pair: &Pair, books: &BookMap, cfg: &CoarseCfg, now: Instant) -> (r: Result<
    Option<Decimal>,
    ArithError,
>)
    ensures
        r == coarse(*pair, *books, *cfg, now),
{
    if !volume_ok(&pair.legs[0], cfg.min_volume) || !volume_ok(&pair.legs[1], cfg.min_volume) {
        return Ok(None);
    }
    let left = read_book(books, pair.legs[0].venue.as_str(), pair.pair_id.as_str());
    let right = read_book(books, pair.legs[1].venue.as_str(), pair.pair_id.as_str());
    let (a, b) = match (left, right) {
        (Some(a), Some(b)) => (a, b),
        _ => {
            return Ok(None);
        },
    };
    if cfg.require_fresh && (!a.is_fresh(cfg.freshness_ms, now) || !b.is_fresh(
        cfg.freshness_ms,
        now,
    )) {
        return Ok(None);
    }
    if !a.valid() || !b.valid() {
        return Ok(None);
    }
    let x = match own_spread_mid_pct(a)? {
        None => {
            return Ok(None);
        },
        Some(x) => x,
    };
    let y = match own_spread_mid_pct(b)? {
        None => {
            return Ok(None);
        },
        Some(y) => y,
    };
    Ok(Some(x.plus(y)?))
}

/// No more pairs may be taken; a limit of zero is none.
pub open spec fn is_full(n: int, cap: int) -> bool {
    cap > 0 && n >= cap
}

/// The pairs that are kept, up to the limit.
pub open spec fn retained(s: Seq<Pair>, keep: Set<Seq<char>>, cap: int) -> Seq<PairParts>
    decreases s.len(),
{
    if s.len() == 0 {
        Seq::empty()
    } else {
        let init = retained(s.drop_last(), keep, cap);
        if keep.contains(s.last().slot()) && !is_full(init.len() as int, cap) {
            init.push(parts(s.last()))
        } else {
            init
        }
    }
}

/// `start` filled up with the pairs whose slots are not in it yet.
pub open spec fn filled_up(start: Seq<PairParts>, s: Seq<Pair>, cap: int) -> Seq<PairParts>
    decreases s.len(),
{
    if s.len() == 0 {
        start
    } else {
        let init = filled_up(start, s.drop_last(), cap);
        if !has_slot(init, s.last().slot()) && !is_full(init.len() as int, cap) {
            init.push(parts(s.last()))
        } else {
            init
        }
    }
}

/// The candidates after another coarse look: those of the earlier ones that are
/// to stay, then the new ones up to the limit.
pub fn merge_coarse_refresh(
    previous: &[Pair],
    next: Vec<Pair>,
    retain_keys: &KeySet,
    cap: usize,
) -> (r: Vec<Pair>)
    ensures
        all_parts(r@) == filled_up(
            retained(previous@, retain_keys@.dom(), cap as int),
            next@,
            cap as int,
        ),
{
    let mut out: Vec<Pair> = Vec::new();
    let ghost keep = retain_keys@.dom();
    let mut i: usize = 0;
    proof {
        assert(previous@.take(0) =~= Seq::empty());
        assert(all_parts(out@) =~= Seq::empty());
    }
    while i < previous.len()
        invariant
            keep == retain_keys@.dom(),
            i <= previous@.len(),
            all_parts(out@) == retained(previous@.take(i as int), keep, cap as int),
        decreases previous.len() - i,
    {
        proof {
            assert(previous@.take(i + 1).drop_last() =~= previous@.take(i as int));
            assert(all_parts(out@).len() == out@.len());
        }
        let p = &previous[i];
        if retain_keys.contains(p.slot_key().as_str()) && !(cap > 0 && out.len() >= cap) {
            put_pair(&mut out, p);
        }
        i = i + 1;
    }
    let ghost start = all_parts(out@);
    let mut j: usize = 0;
    proof {
        assert(previous@.take(i as int) =~= previous@);
        assert(next@.take(0) =~= Seq::empty());
    }
    while j < next.len()
        invariant
            start == retained(previous@, keep, cap as int),
            j <= next@.len(),
            all_parts(out@) == filled_up(start, next@.take(j as int), cap as int),
        decreases next.len() - j,
    {
        proof {
            assert(next@.take(j + 1).drop_last() =~= next@.take(j as int));
            assert(all_parts(out@).len() == out@.len());
        }
        let p = &next[j];
        if !holds_slot(&out, p.slot_key().as_str()) && !(cap > 0 && out.len() >= cap) {
            put_pair(&mut out, p);
        }
        j = j + 1;
    }
    proof {
        assert(next@.take(j as int) =~= next@);
    }
    out
}

/// A pair that passed the coarse look. Smaller sums come first, then the slots
/// in dictionary order.
pub struct Candidate {
    pub sum: Decimal,
    pub pair_id: String,
    pub left: VenueMarket,
    pub right: VenueMarket,
}

impl Candidate {
    pub open spec fn slot(self) -> Seq<char> {
        slot_text(self.pair_id@, self.left.venue.0@, self.right.venue.0@)
    }

    fn key(&self) -> (r: String)
        ensures
            r@ == self.slot(),
    {
        slot_key(self.pair_id.as_str(), self.left.venue.as_str(), self.right.venue.as_str())
    }
}

impl Ranked for Candidate {
    open spec fn precedes(self, other: Candidate) -> bool {
        self.sum.units() < other.sum.units() || (self.sum.units() == other.sum.units() && lex_lt(
            self.slot(),
            other.slot(),
        ))
    }

    fn is_before(&self, other: &Candidate) -> (r: bool) {
        if self.sum < other.sum {
            return true;
        }
        if self.sum > other.sum {
            return false;
        }
        text_lt(self.key().as_str(), other.key().as_str())
    }
}

/// Candidates come from the smallest spread on; of equals the slot decides.
pub proof fn law_candidates_in_order(s: Seq<Candidate>)
    ensures
        in_order(ranked(s)),
{
    assert forall|a: Candidate, b: Candidate| #[trigger] a.precedes(b) implies !b.precedes(a) by {
        lemma_lex_three(a.slot(), b.slot(), a.slot());
        lemma_lex_three(b.slot(), a.slot(), b.slot());
    }
    assert forall|a: Candidate, b: Candidate, c: Candidate|
        #![trigger a.precedes(b), b.precedes(c)]
        !a.precedes(b) && !b.precedes(c) implies !a.precedes(c) by {
        lemma_lex_three(a.slot(), b.slot(), c.slot());
        lemma_lex_three(b.slot(), a.slot(), c.slot());
        lemma_lex_three(a.slot(), c.slot(), b.slot());
    }
    law_ranked_in_order(s);
}

/// The pairs that pass the coarse look.
pub open spec fn passing(s: Seq<Pair>, books: BookMap, cfg: CoarseCfg, now: Instant) -> Result<
    Seq<Candidate>,
    ArithError,
>
    decreases s.len(),
{
    if s.len() == 0 {
        Ok(Seq::empty())
    } else {
        match (passing(s.drop_last(), books, cfg, now), coarse(s.last(), books, cfg, now)) {
            (Ok(init), Ok(None)) => Ok(init),
            (Ok(init), Ok(Some(sum))) => Ok(
                init.push(
                    Candidate {
                        sum,
                        pair_id: s.last().pair_id,
                        left: s.last().legs@[0],
                        right: s.last().legs@[1],
                    },
                ),
            ),
            _ => Err(ArithError),
        }
    }
}

proof fn lemma_passing_err(s: Seq<Pair>, books: BookMap, cfg: CoarseCfg, now: Instant, n: int)
    requires
        0 <= n <= s.len(),
        passing(s.take(n), books, cfg, now) is Err,
    ensures
        passing(s, books, cfg, now) is Err,
    decreases s.len() - n,
{
    if n == s.len() {
        assert(s.take(n) =~= s);
    } else {
        assert(s.take(n + 1).drop_last() =~= s.take(n));
        lemma_passing_err(s, books, cfg, now, n + 1);
    }
}

/// The first `cap` items.
pub open spec fn first<T>(s: Seq<T>, cap: int) -> Seq<T> {
    if s.len() > cap {
        s.take(cap)
    } else {
        s
    }
}

/// The tightest pairs that pass the coarse look, at most `cap`.
pub fn select_candidates(
    universe: &[Pair],
    books: &BookMap,
    cfg: &CoarseCfg,
    cap: usize,
    now: Instant,
) -> (r: Result<Vec<Pair>, ArithError>)
    ensures
        match passing(universe@, *books, *cfg, now) {
            Err(_) => r is Err,
            Ok(s) => r matches Ok(v) && all_parts(v@) == first(ranked(s), cap as int).map_values(
                |c: Candidate| PairParts { pair_id: c.pair_id, left: c.left, right: c.right },
            ),
        },
{
    let mut scored: Vec<Candidate> = Vec::new();
    let mut i: usize = 0;
    proof {
        assert(universe@.take(0) =~= Seq::empty());
    }
    while i < universe.len()
        invariant
            i <= universe@.len(),
            passing(universe@.take(i as int), *books, *cfg, now) == Ok::<
                Seq<Candidate>,
                ArithError,
            >(scored@),
        decreases universe.len() - i,
    {
        proof {
            assert(universe@.take(i + 1).drop_last() =~= universe@.take(i as int));
        }
        let p = &universe[i];
        match coarse_spread_sum(p, books, cfg, now) {
            Err(e) => {
                proof {
                    lemma_passing_err(universe@, *books, *cfg, now, i + 1);
                }
                return Err(e);
            },
            Ok(None) => {},
            Ok(Some(sum)) => {
                scored.push(
                    Candidate {
                        sum,
                        pair_id: p.pair_id.clone(),
                        left: p.legs[0].clone(),
                        right: p.legs[1].clone(),
                    },
                );
            },
        }
        i = i + 1;
    }
    proof {
        assert(universe@.take(i as int) =~= universe@);
    }
    let sorted = sort(scored);
    let n: usize = if sorted.len() > cap {
        cap
    } else {
        sorted.len()
    };
    let mut out: Vec<Pair> = Vec::new();
    let mut j: usize = 0;
    while j < n
        invariant
            j <= n <= sorted@.len(),
            out@.len() == j,
            forall|k: int|
                0 <= k < j ==> parts(#[trigger] out@[k]) == (PairParts {
                    pair_id: sorted@[k].pair_id,
                    left: sorted@[k].left,
                    right: sorted@[k].right,
                }),
        decreases n - j,
    {
        let c = &sorted[j];
        out.push(Pair { pair_id: c.pair_id.clone(), legs: [c.left.clone(), c.right.clone()] });
        j = j + 1;
    }
    proof {
        assert(all_parts(out@) =~= first(sorted@, cap as int).map_values(
            |c: Candidate| PairParts { pair_id: c.pair_id, left: c.left, right: c.right },
        ));
    }
    Ok(out)
}

// ---------------------------------------------------------------------------
// Coins
// ---------------------------------------------------------------------------

/// The coin of a scored pair.
pub open spec fn base_of_pair(p: ScoredPair) -> String {
    p.pair.legs@[0].base
}

/// Both legs trade within one protocol.
pub open spec fn in_family(p: Pair) -> bool {
    family(p.legs@[0].venue.0@) == family(p.legs@[1].venue.0@)
}

/// `a` represents their coin rather than `b`: more edge, then one protocol, then
/// tighter books.
pub open spec fn outdoes(a: ScoredPair, b: ScoredPair) -> bool {
    a.edge.units() > b.edge.units() || (a.edge.units() == b.edge.units() && ((in_family(a.pair)
        && !in_family(b.pair)) || (in_family(a.pair) == in_family(b.pair) && a.hub_c.units()
        < b.hub_c.units())))
}

fn is_better(a: &ScoredPair, b: &ScoredPair) -> (r: bool)
    ensures
        r == outdoes(*a, *b),
{
    if a.edge > b.edge {
        return true;
    }
    if a.edge < b.edge {
        return false;
    }
    let fa = !is_cross_dex(a.pair.legs[0].venue.as_str(), a.pair.legs[1].venue.as_str());
    let fb = !is_cross_dex(b.pair.legs[0].venue.as_str(), b.pair.legs[1].venue.as_str());
    if fa != fb {
        return fa;
    }
    a.hub_c < b.hub_c
}

/// The pair that represents a coin, the first of equals; -1 where there is none.
pub open spec fn best_of(s: Seq<ScoredPair>, base: Seq<char>) -> int
    decreases s.len(),
{
    if s.len() == 0 {
        -1
    } else {
        let b = best_of(s.drop_last(), base);
        if base_of_pair(s.last())@ == base && (b < 0 || outdoes(s.last(), s[b])) {
            s.len() - 1
        } else {
            b
        }
    }
}

/// The coins of the scored pairs.
pub open spec fn bases_of(s: Seq<ScoredPair>) -> Set<Seq<char>>
    decreases s.len(),
{
    if s.len() == 0 {
        Set::empty()
    } else {
        bases_of(s.drop_last()).insert(base_of_pair(s.last())@)
    }
}

proof fn lemma_best(s: Seq<ScoredPair>, base: Seq<char>)
    ensures
        -1 <= best_of(s, base) < s.len(),
        bases_of(s).contains(base) <==> best_of(s, base) >= 0,
        best_of(s, base) >= 0 ==> base_of_pair(s[best_of(s, base)])@ == base,
    decreases s.len(),
{
    if s.len() > 0 {
        lemma_best(s.drop_last(), base);
        let b = best_of(s.drop_last(), base);
        if b >= 0 {
            assert(s.drop_last()[b] == s[b]);
        }
    }
}

/// A coin's best pair: the worthwhile ones first, then more edge, then the coins
/// in dictionary order.
pub struct Top {
    pub eligible: bool,
    pub edge: Decimal,
    pub base: String,
    pub at: usize,
}

impl Ranked for Top {
    open spec fn precedes(self, other: Top) -> bool {
        (self.eligible && !other.eligible) || (self.eligible == other.eligible && (
        self.edge.units() > other.edge.units() || (self.edge.units() == other.edge.units()
            && lex_lt(self.base@, other.base@))))
    }

    fn is_before(&self, other: &Top) -> (r: bool) {
        if self.eligible != other.eligible {
            return self.eligible;
        }
        if self.edge > other.edge {
            return true;
        }
        if self.edge < other.edge {
            return false;
        }
        text_lt(self.base.as_str(), other.base.as_str())
    }
}

/// Coins that can be traded come first, then those with the larger edge, then those
/// that come first in the dictionary.
pub proof fn law_tops_in_order(s: Seq<Top>)
    ensures
        in_order(ranked(s)),
{
    assert forall|a: Top, b: Top| #[trigger] a.precedes(b) implies !b.precedes(a) by {
        lemma_lex_three(a.base@, b.base@, a.base@);
        lemma_lex_three(b.base@, a.base@, b.base@);
    }
    assert forall|a: Top, b: Top, c: Top|
        #![trigger a.precedes(b), b.precedes(c)]
        !a.precedes(b) && !b.precedes(c) implies !a.precedes(c) by {
        lemma_lex_three(a.base@, b.base@, c.base@);
        lemma_lex_three(b.base@, a.base@, c.base@);
        lemma_lex_three(a.base@, c.base@, b.base@);
    }
    law_ranked_in_order(s);
}

/// The best pair of a coin.
pub open spec fn top_of(s: Seq<ScoredPair>, base: Seq<char>) -> Top {
    let b = best_of(s, base);
    Top {
        eligible: s[b].eligible,
        edge: s[b].edge,
        base: base_of_pair(s[b]),
        at: b as usize,
    }
}

/// The best pairs of the named coins.
pub open spec fn tops_of(s: Seq<ScoredPair>, bases: Seq<String>) -> Seq<Top> {
    bases.map_values(|b: String| top_of(s, b@))
}

/// The rows that are shown: a limit of zero is none.
pub open spec fn shown(s: Seq<Top>, watch_top: int) -> Seq<Top> {
    if watch_top > 0 {
        first(s, watch_top)
    } else {
        s
    }
}

/// What is known of a coin on each of the venues.
pub open spec fn cells_of(m: ScanModel, venues: Seq<String>, pair: Seq<char>) -> Result<
    Map<Seq<char>, ScanVenueCell>,
    ArithError,
>
    decreases venues.len(),
{
    if venues.len() == 0 {
        Ok(Map::empty())
    } else {
        match (cells_of(m, venues.drop_last(), pair), cell_of(m, venues.last()@, pair)) {
            (Ok(init), Ok(c)) => Ok(init.insert(venues.last()@, c)),
            _ => Err(ArithError),
        }
    }
}

proof fn lemma_cells_err(m: ScanModel, venues: Seq<String>, pair: Seq<char>, n: int)
    requires
        0 <= n <= venues.len(),
        cells_of(m, venues.take(n), pair) is Err,
    ensures
        cells_of(m, venues, pair) is Err,
    decreases venues.len() - n,
{
    if n == venues.len() {
        assert(venues.take(n) =~= venues);
    } else {
        assert(venues.take(n + 1).drop_last() =~= venues.take(n));
        lemma_cells_err(m, venues, pair, n + 1);
    }
}

fn cells(engine: &ScanEngine, venues: &[String], pair_id: &str) -> (r: Result<
    KeyMap<ScanVenueCell>,
    ArithError,
>)
    ensures
        match r {
            Ok(m) => cells_of(engine@, venues@, pair_id@) == Ok::<
                Map<Seq<char>, ScanVenueCell>,
                ArithError,
            >(m@),
            Err(_) => cells_of(engine@, venues@, pair_id@) is Err,
        },
{
    let mut out: KeyMap<ScanVenueCell> = KeyMap::new();
    let mut i: usize = 0;
    proof {
        assert(venues@.take(0) =~= Seq::empty());
    }
    while i < venues.len()
        invariant
            i <= venues@.len(),
            cells_of(engine@, venues@.take(i as int), pair_id@) == Ok::<
                Map<Seq<char>, ScanVenueCell>,
                ArithError,
            >(out@),
        decreases venues.len() - i,
    {
        proof {
            assert(venues@.take(i + 1).drop_last() =~= venues@.take(i as int));
        }
        match engine.venue_cell(venues[i].as_str(), pair_id) {
            Ok(c) => {
                out.insert(venues[i].as_str(), c);
            },
            Err(e) => {
                proof {
                    lemma_cells_err(engine@, venues@, pair_id@, i + 1);
                }
                return Err(e);
            },
        }
        i = i + 1;
    }
    proof {
        assert(venues@.take(i as int) =~= venues@);
    }
    Ok(out)
}

/// `row` shows a scored pair under a rank.
pub open spec fn row_shows(
    row: ScanRow,
    rank: int,
    p: ScoredPair,
    m: ScanModel,
    venues: Seq<String>,
) -> bool {
    &&& row.rank == rank
    &&& row.base == base_of_pair(p)
    &&& row.pair_id == p.pair.pair_id
    &&& row.left == p.pair.legs@[0].venue.0
    &&& row.right == p.pair.legs@[1].venue.0
    &&& row.same_family == in_family(p.pair)
    &&& row.eligible == p.eligible
    &&& row.edge == p.edge
    &&& row.sigma == p.sigma
    &&& row.delta == p.delta
    &&& row.mu == p.mu
    &&& row.hub_c == p.hub_c
    &&& row.crosses == p.crosses
    &&& row.n == p.n
    &&& row.cap == p.cap
    &&& cells_of(m, venues, p.pair.pair_id@) == Ok::<Map<Seq<char>, ScanVenueCell>, ArithError>(
        row.venues@,
    )
}

fn top_list(scored: &Vec<ScoredPair>, bases: &Vec<String>) -> (r: Vec<Top>)
    requires
        lists_in_order(bases@, bases_of(scored@)),
    ensures
        r@ == tops_of(scored@, bases@),
        forall|i: int| 0 <= i < r@.len() ==> (#[trigger] r@[i]).at < scored@.len(),
{
    let mut tops: Vec<Top> = Vec::new();
    let mut i: usize = 0;
    while i < bases.len()
        invariant
            lists_in_order(bases@, bases_of(scored@)),
            i <= bases@.len(),
            tops@.len() == i,
            forall|k: int| 0 <= k < i ==> #[trigger] tops@[k] == top_of(scored@, bases@[k]@),
            forall|k: int| 0 <= k < i ==> (#[trigger] tops@[k]).at < scored@.len(),
        decreases bases.len() - i,
    {
        let ghost base = bases@[i as int]@;
        let mut best: Option<usize> = None;
        let mut j: usize = 0;
        proof {
            assert(scored@.take(0) =~= Seq::empty());
        }
        while j < scored.len()
            invariant
                i < bases@.len(),
                base == bases@[i as int]@,
                j <= scored@.len(),
                best_of(scored@.take(j as int), base) == (match best {
                    Some(b) => b as int,
                    None => -1int,
                }),
                best matches Some(b) ==> b < j,
            decreases scored.len() - j,
        {
            proof {
                let t = scored@.take(j + 1);
                assert(t.drop_last() =~= scored@.take(j as int));
                if best is Some {
                    assert(t[best->0 as int] == scored@[best->0 as int]);
                }
            }
            if same(scored[j].pair.legs[0].base.as_str(), bases[i].as_str()) {
                let better = match best {
                    None => true,
                    Some(b) => is_better(&scored[j], &scored[b]),
                };
                if better {
                    best = Some(j);
                }
            }
            j = j + 1;
        }
        proof {
            assert(scored@.take(j as int) =~= scored@);
            lemma_best(scored@, base);
            assert(bases_of(scored@).contains(bases@[i as int]@));
        }
        if let Some(b) = best {
            tops.push(
                Top {
                    eligible: scored[b].eligible,
                    edge: scored[b].edge,
                    base: scored[b].pair.legs[0].base.clone(),
                    at: b,
                },
            );
        }
        i = i + 1;
    }
    proof {
        assert(tops@ =~= tops_of(scored@, bases@));
    }
    tops
}

fn base_names(scored: &Vec<ScoredPair>) -> (r: KeySet)
    ensures
        r@.dom() == bases_of(scored@),
{
    let mut out: KeySet = KeyMap::new();
    let mut i: usize = 0;
    proof {
        assert(scored@.take(0) =~= Seq::empty());
        assert(out@.dom() =~= Set::empty());
    }
    while i < scored.len()
        invariant
            i <= scored@.len(),
            out@.dom() == bases_of(scored@.take(i as int)),
        decreases scored.len() - i,
    {
        proof {
            assert(scored@.take(i + 1).drop_last() =~= scored@.take(i as int));
        }
        let ghost before = out@;
        out.insert(scored[i].pair.legs[0].base.as_str(), ());
        proof {
            assert(out@.dom() =~= before.dom().insert(base_of_pair(scored@[i as int])@));
        }
        i = i + 1;
    }
    proof {
        assert(scored@.take(i as int) =~= scored@);
    }
    out
}

proof fn lemma_ranked_bound(s: Seq<Top>, n: int)
    requires
        forall|i: int| 0 <= i < s.len() ==> (#[trigger] s[i]).at < n,
    ensures
        forall|i: int| 0 <= i < ranked(s).len() ==> (#[trigger] ranked(s)[i]).at < n,
        ranked(s).len() == s.len(),
{
    broadcast use vstd::seq_lib::group_to_multiset_ensures;

    crate::ranking::law_ranked_same_items(s);
    assert forall|i: int| 0 <= i < ranked(s).len() implies (#[trigger] ranked(s)[i]).at < n by {
        let x = ranked(s)[i];
        assert(ranked(s).contains(x));
        assert(ranked(s).to_multiset().count(x) > 0);
        assert(s.to_multiset().count(x) > 0);
        assert(s.contains(x));
    }
}

/// The table of the scan: each coin by its best pair, the worthwhile ones first,
/// those with more edge before the others, at most `watch_top` of them.
pub fn rank_bases(
    scored: Vec<ScoredPair>,
    engine: &ScanEngine,
    scan_venues: &[String],
    watch_top: usize,
) -> (r: Result<Vec<ScanRow>, ArithError>)
    ensures
        exists|bases: Seq<String>| #[trigger]
            lists_in_order(bases, bases_of(scored@)) && ({
                let rows = shown(ranked(tops_of(scored@, bases)), watch_top as int);
                match r {
                    Ok(v) => v@.len() == rows.len() && (forall|i: int|
                        0 <= i < rows.len() ==> row_shows(
                            #[trigger] v@[i],
                            i + 1,
                            scored@[rows[i].at as int],
                            engine@,
                            scan_venues@,
                        )),
                    Err(_) => exists|i: int|
                        0 <= i < rows.len() && cells_of(
                            engine@,
                            scan_venues@,
                            scored@[(#[trigger] rows[i]).at as int].pair.pair_id@,
                        ) is Err,
                }
            }),
{
    let bases = base_names(&scored).sorted_keys();
    let tops = top_list(&scored, &bases);
    proof {
        lemma_ranked_bound(tops@, scored@.len() as int);
    }
    let best = sort(tops);
    let n: usize = if watch_top > 0 && best.len() > watch_top {
        watch_top
    } else {
        best.len()
    };
    let ghost rows = shown(ranked(tops_of(scored@, bases@)), watch_top as int);
    let mut out: Vec<ScanRow> = Vec::new();
    let mut i: usize = 0;
    while i < n
        invariant
            lists_in_order(bases@, bases_of(scored@)),
            rows == shown(ranked(tops_of(scored@, bases@)), watch_top as int),
            best@ == ranked(tops_of(scored@, bases@)),
            n == rows.len(),
            n <= best@.len(),
            forall|k: int| 0 <= k < n ==> #[trigger] rows[k] == best@[k],
            forall|k: int| 0 <= k < best@.len() ==> (#[trigger] best@[k]).at < scored@.len(),
            i <= n,
            out@.len() == i,
            forall|k: int|
                0 <= k < i ==> row_shows(
                    #[trigger] out@[k],
                    k + 1,
                    scored@[rows[k].at as int],
                    engine@,
                    scan_venues@,
                ),
        decreases n - i,
    {
        let s = &scored[best[i].at];
        proof {
            assert(rows[i as int] == best@[i as int]);
        }
        let venues = match cells(engine, scan_venues, s.pair.pair_id.as_str()) {
            Ok(v) => v,
            Err(e) => {
                return Err(e);
            },
        };
        out.push(
            ScanRow {
                rank: i + 1,
                base: s.pair.legs[0].base.clone(),
                pair_id: s.pair.pair_id.clone(),
                left: s.pair.legs[0].venue.0.clone(),
                right: s.pair.legs[1].venue.0.clone(),
                same_family: !is_cross_dex(
                    s.pair.legs[0].venue.as_str(),
                    s.pair.legs[1].venue.as_str(),
                ),
                eligible: s.eligible,
                edge: s.edge,
                sigma: s.sigma,
                delta: s.delta,
                mu: s.mu,
                hub_c: s.hub_c,
                crosses: s.crosses,
                n: s.n,
                cap: s.cap,
                venues,
            },
        );
        i = i + 1;
    }
    Ok(out)
}

// ---------------------------------------------------------------------------
// Laws
// ---------------------------------------------------------------------------

/// A pair represents its coin only if no other pair of that coin outdoes it.
pub proof fn law_best_is_not_outdone(s: Seq<ScoredPair>, base: Seq<char>, i: int)
    requires
        0 <= i < s.len(),
        base_of_pair(s[i])@ == base,
    ensures
        best_of(s, base) >= 0,
        base_of_pair(s[best_of(s, base)])@ == base,
        !outdoes(s[i], s[best_of(s, base)]),
    decreases s.len(),
{
    let init = s.drop_last();
    let b = best_of(init, base);
    lemma_best(init, base);
    if i < s.len() - 1 {
        law_best_is_not_outdone(init, base, i);
        assert(init[i] == s[i]);
        assert(init[b] == s[b]);
    } else if b >= 0 {
        assert(init[b] == s[b]);
    }
}

/// No candidate slot stands twice after a refresh that starts from slots that
/// each stand once.
pub proof fn law_refresh_repeats_no_slot(start: Seq<PairParts>, s: Seq<Pair>, cap: int)
    requires
        forall|i: int, j: int|
            0 <= i < j < start.len() ==> (#[trigger] start[i]).slot() != (#[trigger]
            start[j]).slot(),
    ensures
        ({
            let r = filled_up(start, s, cap);
            forall|i: int, j: int|
                0 <= i < j < r.len() ==> (#[trigger] r[i]).slot() != (#[trigger] r[j]).slot()
        }),
    decreases s.len(),
{
    if s.len() > 0 {
        law_refresh_repeats_no_slot(start, s.drop_last(), cap);
        let init = filled_up(start, s.drop_last(), cap);
        let r = filled_up(start, s, cap);
        assert forall|i: int, j: int| 0 <= i < j < r.len() implies (#[trigger] r[i]).slot() != (
        #[trigger] r[j]).slot() by {
            assert(r[i] == init[i]);
            if j < init.len() {
                assert(r[j] == init[j]);
            } else {
                assert(r[j].slot() == s.last().slot());
            }
        }
    }
}

/// Candidates come from the tightest on: none stands behind one whose spreads sum up to more,
/// and of equals the slot that comes first in the dictionary stands first.
pub proof fn law_tightest_candidates_come_first(s: Seq<Candidate>, i: int, j: int)
    requires
        0 <= i < j < ranked(s).len(),
    ensures
        ranked(s)[i].sum.units() <= ranked(s)[j].sum.units(),
        ranked(s)[i].sum.units() == ranked(s)[j].sum.units() ==> !lex_lt(
            ranked(s)[j].slot(),
            ranked(s)[i].slot(),
        ),
{
    law_candidates_in_order(s);
    assert(!ranked(s)[j].precedes(ranked(s)[i]));
}

/// Coins come with those that can be traded first, then from the largest edge on, then in
/// dictionary order.
pub proof fn law_largest_edges_come_first(s: Seq<Top>, i: int, j: int)
    requires
        0 <= i < j < ranked(s).len(),
    ensures
        ranked(s)[j].eligible ==> ranked(s)[i].eligible,
        ranked(s)[i].eligible == ranked(s)[j].eligible ==> ranked(s)[i].edge.units()
            >= ranked(s)[j].edge.units(),
        ranked(s)[i].eligible == ranked(s)[j].eligible && ranked(s)[i].edge.units() == ranked(
            s,
        )[j].edge.units() ==> !lex_lt(ranked(s)[j].base@, ranked(s)[i].base@),
{
    law_tops_in_order(s);
    assert(!ranked(s)[j].precedes(ranked(s)[i]));
}

/// The pair that represents a coin has an edge that no other pair of the coin exceeds; of equal
/// edges one within a protocol goes before one across two, and of those the tighter one.
pub proof fn law_a_coin_is_represented_by_its_largest_edge(
    s: Seq<ScoredPair>,
    base: Seq<char>,
    i: int,
)
    requires
        0 <= i < s.len(),
        base_of_pair(s[i])@ == base,
    ensures
        ({
            let b = best_of(s, base);
            &&& 0 <= b < s.len()
            &&& base_of_pair(s[b])@ == base
            &&& s[b].edge.units() >= s[i].edge.units()
            &&& s[b].edge.units() == s[i].edge.units() && in_family(s[i].pair) ==> in_family(
                s[b].pair,
            )
            &&& s[b].edge.units() == s[i].edge.units() && in_family(s[i].pair) == in_family(
                s[b].pair,
            ) ==> s[b].hub_c.units() <= s[i].hub_c.units()
        }),
{
    law_best_is_not_outdone(s, base, i);
    lemma_best(s, base);
}

/// What a coarse look says of a pair is both legs' own spreads together; it says something only
/// of pairs both of whose markets trade more than the least, and whose books are sound and,
/// where that is asked for, fresh.
pub proof fn law_coarse_sum_is_both_spreads(
    pair: Pair,
    books: BookMap,
    cfg: CoarseCfg,
    now: Instant,
)
    ensures
        coarse(pair, books, cfg, now) matches Ok(Some(t)) ==> {
            &&& pair.legs@[0].volume_24h_usdc matches Some(v) && v.units() > cfg.min_volume.units()
            &&& pair.legs@[1].volume_24h_usdc matches Some(v) && v.units() > cfg.min_volume.units()
            &&& books.at(pair.legs@[0].venue.0@, pair.pair_id@) matches Some(a) && (books.at(
                pair.legs@[1].venue.0@,
                pair.pair_id@,
            ) matches Some(b) && a.sound() && b.sound() && (cfg.require_fresh ==> a.fresh(
                cfg.freshness_ms as int,
                now,
            ) && b.fresh(cfg.freshness_ms as int, now)) && (own_spread_mid(a) matches Ok(Some(x))
                && (own_spread_mid(b) matches Ok(Some(y)) && (adds_exactly(Ok(x), Ok(y))
                ==> t.units() == x.units() + y.units()))))
        },
{
}

proof fn lemma_pushed<T>(s: Seq<T>, x: T, y: T)
    ensures
        s.push(x).contains(y) <==> s.contains(y) || y == x,
{
    if s.push(x).contains(y) {
        let i = choose|i: int| 0 <= i < s.len() + 1 && s.push(x)[i] == y;
        if i < s.len() {
            assert(s[i] == y);
        }
    }
    if s.contains(y) {
        let i = choose|i: int| 0 <= i < s.len() && s[i] == y;
        assert(s.push(x)[i] == y);
    }
    assert(s.push(x)[s.len() as int] == x);
}

/// Exactly the markets stay that are known to trade more than the least.
pub proof fn law_markets_that_trade_enough_stay(s: Seq<VenueMarket>, min: Decimal, m: VenueMarket)
    ensures
        traded(s, min).contains(m) <==> s.contains(m) && (m.volume_24h_usdc matches Some(v)
            && v.units() > min.units()),
    decreases s.len(),
{
    if s.len() > 0 {
        let t = s.drop_last();
        law_markets_that_trade_enough_stay(t, min, m);
        lemma_pushed(traded(t, min), s.last(), m);
        lemma_pushed(t, s.last(), m);
        assert(t.push(s.last()) =~= s);
    }
}

/// A refresh keeps the limit, keeps what is to stay at the front, and adds only new pairs.
pub proof fn law_refresh_keeps_the_limit(
    previous: Seq<Pair>,
    next: Seq<Pair>,
    keep: Set<Seq<char>>,
    cap: int,
    x: PairParts,
)
    ensures
        ({
            let start = retained(previous, keep, cap);
            let r = filled_up(start, next, cap);
            &&& cap > 0 ==> r.len() <= cap
            &&& r.len() >= start.len() && r.take(start.len() as int) == start
            &&& start.contains(x) ==> all_parts(previous).contains(x) && keep.contains(x.slot())
            &&& r.contains(x) ==> start.contains(x) || all_parts(next).contains(x)
        }),
    decreases previous.len() + next.len(),
{
    let start = retained(previous, keep, cap);
    lemma_retained(previous, keep, cap, x);
    lemma_filled_up(start, next, cap, x);
}

proof fn lemma_retained(s: Seq<Pair>, keep: Set<Seq<char>>, cap: int, x: PairParts)
    ensures
        cap > 0 ==> retained(s, keep, cap).len() <= cap,
        retained(s, keep, cap).contains(x) ==> all_parts(s).contains(x) && keep.contains(x.slot()),
    decreases s.len(),
{
    if s.len() > 0 {
        let t = s.drop_last();
        lemma_retained(t, keep, cap, x);
        lemma_pushed(retained(t, keep, cap), parts(s.last()), x);
        lemma_pushed(all_parts(t), parts(s.last()), x);
        assert(all_parts(s) =~= all_parts(t).push(parts(s.last())));
    }
}

proof fn lemma_filled_up(start: Seq<PairParts>, s: Seq<Pair>, cap: int, x: PairParts)
    requires
        cap > 0 ==> start.len() <= cap,
    ensures
        ({
            let r = filled_up(start, s, cap);
            &&& cap > 0 ==> r.len() <= cap
            &&& r.len() >= start.len() && r.take(start.len() as int) == start
            &&& r.contains(x) ==> start.contains(x) || all_parts(s).contains(x)
        }),
    decreases s.len(),
{
    if s.len() == 0 {
        assert(start.take(start.len() as int) =~= start);
    } else {
        let t = s.drop_last();
        lemma_filled_up(start, t, cap, x);
        let init = filled_up(start, t, cap);
        lemma_pushed(init, parts(s.last()), x);
        lemma_pushed(all_parts(t), parts(s.last()), x);
        assert(all_parts(s) =~= all_parts(t).push(parts(s.last())));
        assert(init.push(parts(s.last())).take(start.len() as int) =~= init.take(
            start.len() as int,
        ));
    }
}

/// Only pairs of the candidates' coins are watched, and of those every slot once.
pub proof fn law_watched_pairs_are_of_the_candidates(
    s: Seq<Pair>,
    candidates: Seq<Pair>,
    i: int,
)
    requires
        0 <= i < s.len(),
    ensures
        has_coin(candidates, s[i].pair_id@) ==> has_slot(widened(s, candidates), s[i].slot()),
        forall|j: int|
            0 <= j < widened(s, candidates).len() ==> has_coin(
                candidates,
                (#[trigger] widened(s, candidates)[j]).pair_id@,
            ),
    decreases s.len(),
{
    let t = s.drop_last();
    let init = widened(t, candidates);
    let r = widened(s, candidates);
    if t.len() > 0 {
        law_watched_pairs_are_of_the_candidates(
            t,
            candidates,
            if i < t.len() {
                i
            } else {
                0
            },
        );
    }
    assert forall|j: int| 0 <= j < r.len() implies has_coin(candidates, (#[trigger] r[j]).pair_id@) by {
        if j < init.len() {
            assert(r[j] == init[j]);
        }
    }
    if has_coin(candidates, s[i].pair_id@) {
        if i < t.len() {
            let k = choose|k: int| 0 <= k < init.len() && (#[trigger] init[k]).slot() == t[i].slot();
            assert(r[k].slot() == s[i].slot());
        } else if has_slot(init, s[i].slot()) {
            let k = choose|k: int| 0 <= k < init.len() && (#[trigger] init[k]).slot() == s[i].slot();
            assert(r[k].slot() == s[i].slot());
        } else {
            assert(r[init.len() as int].slot() == s[i].slot());
        }
    }
}

} // verus!
