//! The scan from one tick to the next: what is subscribed, sampled, scored and
//! kept.

use crate::app::candidates::{
    all_parts, coarse, coarse_spread_sum, has_slot, holds_slot, pair_has_books, pair_volume_ok,
    parts, PairParts,
};
use crate::app::scan::{
    coin_key, pair_seen, samples_of, score_of, venue_book_seen, CoarseCfg, Samples, ScanEngine,
    ScanModel, ScanPhase, ScanRow, ScoredPair, COARSE_PROBE_BATCH,
};
use crate::clock::{elapsed, secs, Duration, Instant};
use crate::config::AppConfig;
use crate::decimal::{lit, ArithError, Decimal};
use crate::domain::book::{read_book, Bbo, BookMap};
use crate::domain::symbol::{slot_key, Pair, VenueMarket};
use crate::keymap::{KeyMap, KeySet};
use crate::text::{joined, same};
use vstd::prelude::*;

verus! {

/// What a market must trade in a day to be scanned: as configured, else ten
/// million.
pub open spec fn min_volume_of(configured: Decimal) -> Decimal {
    if configured.units() <= 0 {
        lit(10_000_000, 0)
    } else {
        configured
    }
}

pub fn scan_min_volume(cfg: &AppConfig) -> (r: Decimal)
    ensures
        r == min_volume_of(cfg.scan.min_volume_24h_usdc),
{
    if cfg.scan.min_volume_24h_usdc.is_positive() {
        cfg.scan.min_volume_24h_usdc
    } else {
        Decimal::from_int(10_000_000)
    }
}

pub open spec fn coarse_of(cfg: AppConfig, require_fresh: bool) -> CoarseCfg {
    CoarseCfg {
        min_volume: min_volume_of(cfg.scan.min_volume_24h_usdc),
        freshness_ms: cfg.system.data_freshness_ms,
        require_fresh,
        max_own_spread_pct: cfg.scan.max_own_spread_pct,
        min_level_notional_usdc: cfg.scan.min_level_notional_usdc,
    }
}

pub fn coarse_cfg(cfg: &AppConfig, require_fresh: bool) -> (r: CoarseCfg)
    ensures
        r == coarse_of(*cfg, require_fresh),
{
    CoarseCfg {
        min_volume: scan_min_volume(cfg),
        freshness_ms: cfg.system.data_freshness_ms,
        require_fresh,
        max_own_spread_pct: cfg.scan.max_own_spread_pct,
        min_level_notional_usdc: cfg.scan.min_level_notional_usdc,
    }
}

// ---------------------------------------------------------------------------
// Ticks
// ---------------------------------------------------------------------------

/// What a tick of the scan does.
#[derive(Clone, Copy, Debug, PartialEq, Eq, Structural)]
pub enum ScanTick {
    /// Nothing.
    Off,
    /// Books that were asked for are still awaited.
    Probing,
    /// Their time is over.
    ProbeOver,
    /// Books are sampled; before that the candidates are chosen anew where they
    /// are due.
    Sample { refresh: bool },
}

pub open spec fn ticked(
    running: bool,
    phase: ScanPhase,
    probe_until: Option<Instant>,
    last_coarse: Instant,
    refresh_secs: int,
    has_universe: bool,
    now: Instant,
) -> ScanTick {
    if !running || phase == ScanPhase::Idle || phase == ScanPhase::Error {
        ScanTick::Off
    } else if probe_until is Some {
        if now.nanos < probe_until->0.nanos {
            ScanTick::Probing
        } else {
            ScanTick::ProbeOver
        }
    } else {
        ScanTick::Sample {
            refresh: (phase == ScanPhase::Sampling || phase == ScanPhase::Live) && elapsed(
                now,
                last_coarse,
            ) >= secs(
                if refresh_secs < 30 {
                    30
                } else {
                    refresh_secs
                },
            ) && has_universe,
        }
    }
}

pub fn scan_tick(
    running: bool,
    phase: ScanPhase,
    probe_until: Option<Instant>,
    last_coarse: Instant,
    refresh_secs: u64,
    has_universe: bool,
    now: Instant,
) -> (r: ScanTick)
    ensures
        r == ticked(
            running,
            phase,
            probe_until,
            last_coarse,
            refresh_secs as int,
            has_universe,
            now,
        ),
{
    if !running || phase == ScanPhase::Idle || phase == ScanPhase::Error {
        return ScanTick::Off;
    }
    if let Some(until) = probe_until {
        return if now.nanos < until.nanos {
            ScanTick::Probing
        } else {
            ScanTick::ProbeOver
        };
    }
    let sampling = phase == ScanPhase::Sampling || phase == ScanPhase::Live;
    let period = Duration::from_secs(
        if refresh_secs < 30 {
            30
        } else {
            refresh_secs
        },
    );
    ScanTick::Sample {
        refresh: sampling && now.since(last_coarse).nanos >= period.nanos && has_universe,
    }
}

/// The phase after sampling: live once a window is full or there is nothing to
/// sample.
pub fn phase_after(filled: usize, has_candidates: bool) -> (r: ScanPhase)
    ensures
        r == (if filled > 0 || !has_candidates {
            ScanPhase::Live
        } else {
            ScanPhase::Sampling
        }),
{
    if filled > 0 || !has_candidates {
        ScanPhase::Live
    } else {
        ScanPhase::Sampling
    }
}

// ---------------------------------------------------------------------------
// Sampling
// ---------------------------------------------------------------------------

/// A book that can be sampled.
pub open spec fn can_sample(b: Option<Bbo>, freshness_ms: int, now: Instant) -> bool {
    b is Some && b->0.fresh(freshness_ms, now) && b->0.sound()
}

/// The windows after one candidate was looked at.
pub open spec fn candidate_seen(
    m: ScanModel,
    p: Pair,
    books: BookMap,
    freshness_ms: int,
    now_ms: int,
    now: Instant,
) -> Result<ScanModel, ArithError> {
    let b0 = books.at(p.legs@[0].venue.0@, p.pair_id@);
    let b1 = books.at(p.legs@[1].venue.0@, p.pair_id@);
    if can_sample(b0, freshness_ms, now) && can_sample(b1, freshness_ms, now) {
        pair_seen(m, p, b0->0, b1->0, now_ms)
    } else {
        Ok(m)
    }
}

/// The windows after all candidates were looked at.
pub open spec fn candidates_seen(
    m: ScanModel,
    s: Seq<Pair>,
    books: BookMap,
    freshness_ms: int,
    now_ms: int,
    now: Instant,
) -> Result<ScanModel, ArithError>
    decreases s.len(),
{
    if s.len() == 0 {
        Ok(m)
    } else {
        match candidates_seen(m, s.drop_last(), books, freshness_ms, now_ms, now) {
            Err(e) => Err(e),
            Ok(n) => candidate_seen(n, s.last(), books, freshness_ms, now_ms, now),
        }
    }
}

proof fn lemma_candidates_err(
    m: ScanModel,
    s: Seq<Pair>,
    books: BookMap,
    freshness_ms: int,
    now_ms: int,
    now: Instant,
    n: int,
)
    requires
        0 <= n <= s.len(),
        candidates_seen(m, s.take(n), books, freshness_ms, now_ms, now) is Err,
    ensures
        candidates_seen(m, s, books, freshness_ms, now_ms, now) is Err,
    decreases s.len() - n,
{
    if n == s.len() {
        assert(s.take(n) =~= s);
    } else {
        assert(s.take(n + 1).drop_last() =~= s.take(n));
        lemma_candidates_err(m, s, books, freshness_ms, now_ms, now, n + 1);
    }
}

/// Samples the candidates whose books are fresh and sound.
pub fn sample_candidates(
    engine: &mut ScanEngine,
    candidates: &Vec<Pair>,
    books: &BookMap,
    freshness_ms: u64,
    now_ms: u64,
    now: Instant,
) -> (r: Result<(), ArithError>)
    ensures
        match candidates_seen(
            old(engine)@,
            candidates@,
            *books,
            freshness_ms as int,
            now_ms as int,
            now,
        ) {
            Ok(m) => r is Ok && final(engine)@ == m,
            Err(_) => r is Err,
        },
{
    let mut i: usize = 0;
    proof {
        assert(candidates@.take(0) =~= Seq::empty());
    }
    while i < candidates.len()
        invariant
            i <= candidates@.len(),
            candidates_seen(
                old(engine)@,
                candidates@.take(i as int),
                *books,
                freshness_ms as int,
                now_ms as int,
                now,
            ) == Ok::<ScanModel, ArithError>(engine@),
        decreases candidates.len() - i,
    {
        proof {
            assert(candidates@.take(i + 1).drop_last() =~= candidates@.take(i as int));
        }
        let p = &candidates[i];
        let left = read_book(books, p.legs[0].venue.as_str(), p.pair_id.as_str());
        let right = read_book(books, p.legs[1].venue.as_str(), p.pair_id.as_str());
        if let (Some(a), Some(b)) = (left, right) {
            if a.is_fresh(freshness_ms, now) && b.is_fresh(freshness_ms, now) && a.valid()
                && b.valid() {
                match engine.observe(p, a, b, now_ms) {
                    Ok(_) => {},
                    Err(e) => {
                        proof {
                            lemma_candidates_err(
                                old(engine)@,
                                candidates@,
                                *books,
                                freshness_ms as int,
                                now_ms as int,
                                now,
                                i + 1,
                            );
                        }
                        return Err(e);
                    },
                }
            }
        }
        i = i + 1;
    }
    proof {
        assert(candidates@.take(i as int) =~= candidates@);
    }
    Ok(())
}

/// The windows after a coin was looked at on all venues.
pub open spec fn coin_seen_on(
    m: ScanModel,
    pair: Seq<char>,
    venues: Seq<String>,
    books: BookMap,
    freshness_ms: int,
    now_ms: int,
    now: Instant,
) -> Result<ScanModel, ArithError>
    decreases venues.len(),
{
    if venues.len() == 0 {
        Ok(m)
    } else {
        match coin_seen_on(m, pair, venues.drop_last(), books, freshness_ms, now_ms, now) {
            Err(e) => Err(e),
            Ok(n) => {
                let b = books.at(venues.last()@, pair);
                if can_sample(b, freshness_ms, now) {
                    venue_book_seen(n, venues.last()@, pair, b->0, now_ms)
                } else {
                    Ok(n)
                }
            },
        }
    }
}

proof fn lemma_coin_err(
    m: ScanModel,
    pair: Seq<char>,
    venues: Seq<String>,
    books: BookMap,
    freshness_ms: int,
    now_ms: int,
    now: Instant,
    n: int,
)
    requires
        0 <= n <= venues.len(),
        coin_seen_on(m, pair, venues.take(n), books, freshness_ms, now_ms, now) is Err,
    ensures
        coin_seen_on(m, pair, venues, books, freshness_ms, now_ms, now) is Err,
    decreases venues.len() - n,
{
    if n == venues.len() {
        assert(venues.take(n) =~= venues);
    } else {
        assert(venues.take(n + 1).drop_last() =~= venues.take(n));
        lemma_coin_err(m, pair, venues, books, freshness_ms, now_ms, now, n + 1);
    }
}

fn sample_coin(
    engine: &mut ScanEngine,
    pair_id: &str,
    venues: &Vec<String>,
    books: &BookMap,
    freshness_ms: u64,
    now_ms: u64,
    now: Instant,
) -> (r: Result<(), ArithError>)
    ensures
        match coin_seen_on(
            old(engine)@,
            pair_id@,
            venues@,
            *books,
            freshness_ms as int,
            now_ms as int,
            now,
        ) {
            Ok(m) => r is Ok && final(engine)@ == m,
            Err(_) => r is Err,
        },
{
    let mut i: usize = 0;
    proof {
        assert(venues@.take(0) =~= Seq::empty());
    }
    while i < venues.len()
        invariant
            i <= venues@.len(),
            coin_seen_on(
                old(engine)@,
                pair_id@,
                venues@.take(i as int),
                *books,
                freshness_ms as int,
                now_ms as int,
                now,
            ) == Ok::<ScanModel, ArithError>(engine@),
        decreases venues.len() - i,
    {
        proof {
            assert(venues@.take(i + 1).drop_last() =~= venues@.take(i as int));
        }
        if let Some(b) = read_book(books, venues[i].as_str(), pair_id) {
            if b.is_fresh(freshness_ms, now) && b.valid() {
                match engine.observe_venue(venues[i].as_str(), pair_id, b, now_ms) {
                    Ok(_) => {},
                    Err(e) => {
                        proof {
                            lemma_coin_err(
                                old(engine)@,
                                pair_id@,
                                venues@,
                                *books,
                                freshness_ms as int,
                                now_ms as int,
                                now,
                                i + 1,
                            );
                        }
                        return Err(e);
                    },
                }
            }
        }
        i = i + 1;
    }
    proof {
        assert(venues@.take(i as int) =~= venues@);
    }
    Ok(())
}

/// The windows after the coins of all candidates were looked at on all venues.
pub open spec fn coins_seen(
    m: ScanModel,
    s: Seq<Pair>,
    venues: Seq<String>,
    books: BookMap,
    freshness_ms: int,
    now_ms: int,
    now: Instant,
) -> Result<ScanModel, ArithError>
    decreases s.len(),
{
    if s.len() == 0 {
        Ok(m)
    } else {
        match coins_seen(m, s.drop_last(), venues, books, freshness_ms, now_ms, now) {
            Err(e) => Err(e),
            Ok(n) => coin_seen_on(n, s.last().pair_id@, venues, books, freshness_ms, now_ms, now),
        }
    }
}

proof fn lemma_coins_err(
    m: ScanModel,
    s: Seq<Pair>,
    venues: Seq<String>,
    books: BookMap,
    freshness_ms: int,
    now_ms: int,
    now: Instant,
    n: int,
)
    requires
        0 <= n <= s.len(),
        coins_seen(m, s.take(n), venues, books, freshness_ms, now_ms, now) is Err,
    ensures
        coins_seen(m, s, venues, books, freshness_ms, now_ms, now) is Err,
    decreases s.len() - n,
{
    if n == s.len() {
        assert(s.take(n) =~= s);
    } else {
        assert(s.take(n + 1).drop_last() =~= s.take(n));
        lemma_coins_err(m, s, venues, books, freshness_ms, now_ms, now, n + 1);
    }
}

/// Samples the candidates' coins on every venue: the columns of venues on which
/// no candidate trades are filled too.
pub fn sample_venues(
    engine: &mut ScanEngine,
    candidates: &Vec<Pair>,
    venues: &Vec<String>,
    books: &BookMap,
    freshness_ms: u64,
    now_ms: u64,
    now: Instant,
) -> (r: Result<(), ArithError>)
    ensures
        match coins_seen(
            old(engine)@,
            candidates@,
            venues@,
            *books,
            freshness_ms as int,
            now_ms as int,
            now,
        ) {
            Ok(m) => r is Ok && final(engine)@ == m,
            Err(_) => r is Err,
        },
{
    let mut i: usize = 0;
    proof {
        assert(candidates@.take(0) =~= Seq::empty());
    }
    while i < candidates.len()
        invariant
            i <= candidates@.len(),
            coins_seen(
                old(engine)@,
                candidates@.take(i as int),
                venues@,
                *books,
                freshness_ms as int,
                now_ms as int,
                now,
            ) == Ok::<ScanModel, ArithError>(engine@),
        decreases candidates.len() - i,
    {
        proof {
            assert(candidates@.take(i + 1).drop_last() =~= candidates@.take(i as int));
        }
        match sample_coin(
            engine,
            candidates[i].pair_id.as_str(),
            venues,
            books,
            freshness_ms,
            now_ms,
            now,
        ) {
            Ok(_) => {},
            Err(e) => {
                proof {
                    lemma_coins_err(
                        old(engine)@,
                        candidates@,
                        venues@,
                        *books,
                        freshness_ms as int,
                        now_ms as int,
                        now,
                        i + 1,
                    );
                }
                return Err(e);
            },
        }
        i = i + 1;
    }
    proof {
        assert(candidates@.take(i as int) =~= candidates@);
    }
    Ok(())
}

// ---------------------------------------------------------------------------
// Candidates
// ---------------------------------------------------------------------------

/// The pairs have the same slots.
pub open spec fn same_slots(a: Seq<Pair>, b: Seq<Pair>) -> bool {
    forall|s: Seq<char>| #[trigger] has_slot(all_parts(a), s) == has_slot(all_parts(b), s)
}

/// Every slot of `a` is one of `b`.
fn slots_within(a: &Vec<Pair>, b: &Vec<Pair>) -> (r: bool)
    ensures
        r == forall|s: Seq<char>| #[trigger]
            has_slot(all_parts(a@), s) ==> has_slot(all_parts(b@), s),
{
    let mut i: usize = 0;
    while i < a.len()
        invariant
            i <= a@.len(),
            forall|j: int|
                0 <= j < i ==> has_slot(all_parts(b@), (#[trigger] all_parts(a@)[j]).slot()),
        decreases a.len() - i,
    {
        let slot = a[i].slot_key();
        proof {
            assert(all_parts(a@)[i as int].slot() == slot@);
        }
        if !holds_slot(b, slot.as_str()) {
            proof {
                assert(has_slot(all_parts(a@), slot@));
            }
            return false;
        }
        i = i + 1;
    }
    true
}

/// The candidates are replaced: by others, and not by none where there are some.
pub fn replaces(current: &Vec<Pair>, merged: &Vec<Pair>) -> (r: bool)
    ensures
        r == (!(merged@.len() == 0 && current@.len() > 0) && !same_slots(merged@, current@)),
{
    if merged.len() == 0 && current.len() > 0 {
        return false;
    }
    !(slots_within(merged, current) && slots_within(current, merged))
}

/// A pair has a full window and its deviation is known.
pub open spec fn is_scorable(m: ScanModel, p: Pair, sigma: Option<Decimal>) -> bool {
    samples_of(m, p.slot()) >= m.cap && sigma is Some
}

/// The places of the pairs that can be scored.
pub open spec fn scorable(m: ScanModel, s: Seq<Pair>, sigmas: Seq<Option<Decimal>>) -> Seq<int>
    decreases s.len(),
{
    if s.len() == 0 {
        Seq::empty()
    } else {
        let init = scorable(m, s.drop_last(), sigmas.drop_last());
        if is_scorable(m, s.last(), sigmas.last()) {
            init.push(s.len() - 1)
        } else {
            init
        }
    }
}

/// `x` scores a pair.
pub open spec fn scores_pair(
    x: ScoredPair,
    cfg: AppConfig,
    m: ScanModel,
    p: Pair,
    sigma: Decimal,
) -> bool {
    &&& parts(x.pair) == parts(p)
    &&& x.sigma == sigma
    &&& x.n == samples_of(m, p.slot())
    &&& x.cap == m.cap
    &&& cfg.round_trip_taker(p.legs@[0].venue.0@, p.legs@[1].venue.0@) is Ok
    &&& score_of(
        m.slots[p.slot()].buf,
        sigma,
        cfg.pairs.defaults.target_bp,
        cfg.round_trip_taker(p.legs@[0].venue.0@, p.legs@[1].venue.0@)->Ok_0,
        cfg.grid.step_hysteresis,
    ) matches Ok(s) && x.edge == s.edge && x.delta == s.delta && x.mu == s.mu && x.hub_c == s.hub_c
        && x.crosses == s.crosses as u32 && x.eligible == (sigma.units() > s.delta.units())
}

/// `v` scores the pairs at the given places.
pub open spec fn scores_at(
    v: Seq<ScoredPair>,
    cfg: AppConfig,
    m: ScanModel,
    s: Seq<Pair>,
    sigmas: Seq<Option<Decimal>>,
    at: Seq<int>,
) -> bool {
    &&& v.len() == at.len()
    &&& forall|i: int|
        0 <= i < at.len() ==> scores_pair(
            #[trigger] v[i],
            cfg,
            m,
            s[at[i]],
            sigmas[at[i]]->0,
        )
}

/// A pair that cannot be scored although its window is full.
pub open spec fn score_fails(cfg: AppConfig, m: ScanModel, p: Pair, sigma: Option<Decimal>) -> bool {
    let fee = cfg.round_trip_taker(p.legs@[0].venue.0@, p.legs@[1].venue.0@);
    fee is Err || (is_scorable(m, p, sigma) && score_of(
        m.slots[p.slot()].buf,
        sigma->0,
        cfg.pairs.defaults.target_bp,
        fee->Ok_0,
        cfg.grid.step_hysteresis,
    ) is Err)
}

/// Scores the pairs that have a full window. `sigmas` are the deviations of their
/// spreads, pair by pair.
pub fn score_candidates(
    cfg: &AppConfig,
    engine: &ScanEngine,
    candidates: &Vec<Pair>,
    sigmas: &Vec<Option<Decimal>>,
) -> (r: Result<Vec<ScoredPair>, ArithError>)
    requires
        candidates@.len() == sigmas@.len(),
    ensures
        match r {
            Ok(v) => scores_at(
                v@,
                *cfg,
                engine@,
                candidates@,
                sigmas@,
                scorable(engine@, candidates@, sigmas@),
            ),
            Err(_) => exists|i: int|
                0 <= i < candidates@.len() && score_fails(
                    *cfg,
                    engine@,
                    #[trigger] candidates@[i],
                    sigmas@[i],
                ),
        },
{
    let mut out: Vec<ScoredPair> = Vec::new();
    let mut i: usize = 0;
    let ghost mut at: Seq<int> = Seq::empty();
    proof {
        assert(candidates@.take(0) =~= Seq::empty());
    }
    while i < candidates.len()
        invariant
            candidates@.len() == sigmas@.len(),
            i <= candidates@.len(),
            at == scorable(engine@, candidates@.take(i as int), sigmas@.take(i as int)),
            scores_at(out@, *cfg, engine@, candidates@, sigmas@, at),
        decreases candidates.len() - i,
    {
        let ghost list = out@;
        proof {
            assert(candidates@.take(i + 1).drop_last() =~= candidates@.take(i as int));
            assert(sigmas@.take(i + 1).drop_last() =~= sigmas@.take(i as int));
            assert(candidates@.take(i + 1).last() == candidates@[i as int]);
            assert(sigmas@.take(i + 1).last() == sigmas@[i as int]);
        }
        let p = &candidates[i];
        let fee = match cfg.market_round_trip_taker(&p.legs[0].venue, &p.legs[1].venue) {
            Ok(f) => f,
            Err(e) => {
                proof {
                    assert(score_fails(*cfg, engine@, candidates@[i as int], sigmas@[i as int]));
                }
                return Err(e);
            },
        };
        match engine.score(
            p,
            cfg.pairs.defaults.target_bp,
            fee,
            cfg.grid.step_hysteresis,
            sigmas[i],
        ) {
            Err(e) => {
                proof {
                    assert(score_fails(*cfg, engine@, candidates@[i as int], sigmas@[i as int]));
                }
                return Err(e);
            },
            Ok(None) => {},
            Ok(Some(x)) => {
                proof {
                    assert(scores_pair(
                        x,
                        *cfg,
                        engine@,
                        candidates@[i as int],
                        sigmas@[i as int]->0,
                    ));
                }
                out.push(x);
                proof {
                    let next = at.push(i as int);
                    assert forall|j: int| 0 <= j < next.len() implies scores_pair(
                        #[trigger] out@[j],
                        *cfg,
                        engine@,
                        candidates@[next[j]],
                        sigmas@[next[j]]->0,
                    ) by {
                        if j < list.len() {
                            assert(out@[j] == list[j]);
                        }
                    }
                    at = next;
                }
            },
        }
        i = i + 1;
    }
    proof {
        assert(candidates@.take(i as int) =~= candidates@);
        assert(sigmas@.take(i as int) =~= sigmas@);
    }
    Ok(out)
}

/// The first candidate that a row shows; the length where there is none.
pub open spec fn candidate_of(s: Seq<Pair>, pair: Seq<char>, left: Seq<char>, right: Seq<char>) -> int
    decreases s.len(),
{
    if s.len() == 0 || (s[0].pair_id@ == pair && s[0].legs@[0].venue.0@ == left
        && s[0].legs@[1].venue.0@ == right) {
        0
    } else {
        1 + candidate_of(s.drop_first(), pair, left, right)
    }
}

fn find_candidate(s: &Vec<Pair>, pair: &str, left: &str, right: &str) -> (r: usize)
    ensures
        r == candidate_of(s@, pair@, left@, right@),
        r <= s@.len(),
{
    let mut i: usize = 0;
    proof {
        assert(s@.skip(0) =~= s@);
    }
    while i < s.len()
        invariant
            i <= s@.len(),
            candidate_of(s@, pair@, left@, right@) == i + candidate_of(
                s@.skip(i as int),
                pair@,
                left@,
                right@,
            ),
        decreases s.len() - i,
    {
        if same(s[i].pair_id.as_str(), pair) && same(s[i].legs[0].venue.as_str(), left) && same(
            s[i].legs[1].venue.as_str(),
            right,
        ) {
            return i;
        }
        proof {
            assert(s@.skip(i as int).drop_first() =~= s@.skip(i + 1));
        }
        i = i + 1;
    }
    i
}

/// The slots of the rows that stay candidates: those with a full window whose
/// pairs still pass the coarse look.
pub open spec fn retained_slots(
    m: ScanModel,
    rows: Seq<ScanRow>,
    s: Seq<Pair>,
    books: BookMap,
    cfg: CoarseCfg,
    now: Instant,
) -> Result<Set<Seq<char>>, ArithError>
    decreases rows.len(),
{
    if rows.len() == 0 {
        Ok(Set::empty())
    } else {
        match retained_slots(m, rows.drop_last(), s, books, cfg, now) {
            Err(e) => Err(e),
            Ok(init) => {
                let r = rows.last();
                let k = candidate_of(s, r.pair_id@, r.left@, r.right@);
                if k >= s.len() || samples_of(m, s[k].slot()) < m.cap {
                    Ok(init)
                } else {
                    match coarse(s[k], books, cfg, now) {
                        Err(e) => Err(e),
                        Ok(None) => Ok(init),
                        Ok(Some(_)) => Ok(init.insert(s[k].slot())),
                    }
                }
            },
        }
    }
}

proof fn lemma_retained_err(
    m: ScanModel,
    rows: Seq<ScanRow>,
    s: Seq<Pair>,
    books: BookMap,
    cfg: CoarseCfg,
    now: Instant,
    n: int,
)
    requires
        0 <= n <= rows.len(),
        retained_slots(m, rows.take(n), s, books, cfg, now) is Err,
    ensures
        retained_slots(m, rows, s, books, cfg, now) is Err,
    decreases rows.len() - n,
{
    if n == rows.len() {
        assert(rows.take(n) =~= rows);
    } else {
        assert(rows.take(n + 1).drop_last() =~= rows.take(n));
        lemma_retained_err(m, rows, s, books, cfg, now, n + 1);
    }
}

pub fn retain_topn_keys(
    engine: &ScanEngine,
    rows: &Vec<ScanRow>,
    candidates: &Vec<Pair>,
    books: &BookMap,
    cfg: &CoarseCfg,
    now: Instant,
) -> (r: Result<KeySet, ArithError>)
    ensures
        match retained_slots(engine@, rows@, candidates@, *books, *cfg, now) {
            Err(_) => r is Err,
            Ok(s) => r matches Ok(k) && k@.dom() == s,
        },
{
    let mut keys: KeySet = KeyMap::new();
    let mut i: usize = 0;
    proof {
        assert(rows@.take(0) =~= Seq::empty());
        assert(keys@.dom() =~= Set::empty());
    }
    while i < rows.len()
        invariant
            i <= rows@.len(),
            retained_slots(engine@, rows@.take(i as int), candidates@, *books, *cfg, now) == Ok::<
                Set<Seq<char>>,
                ArithError,
            >(keys@.dom()),
        decreases rows.len() - i,
    {
        proof {
            assert(rows@.take(i + 1).drop_last() =~= rows@.take(i as int));
        }
        let row = &rows[i];
        let k = find_candidate(
            candidates,
            row.pair_id.as_str(),
            row.left.as_str(),
            row.right.as_str(),
        );
        if k < candidates.len() && engine.is_filled(&candidates[k]) {
            match coarse_spread_sum(&candidates[k], books, cfg, now) {
                Err(e) => {
                    proof {
                        lemma_retained_err(
                            engine@,
                            rows@,
                            candidates@,
                            *books,
                            *cfg,
                            now,
                            i + 1,
                        );
                    }
                    return Err(e);
                },
                Ok(None) => {},
                Ok(Some(_)) => {
                    let ghost before = keys@;
                    keys.insert(candidates[k].slot_key().as_str(), ());
                    proof {
                        assert(keys@.dom() =~= before.dom().insert(candidates@[k as int].slot()));
                    }
                },
            }
        }
        i = i + 1;
    }
    proof {
        assert(rows@.take(i as int) =~= rows@);
    }
    Ok(keys)
}

/// The windows of the candidates' coins on all scanned venues.
pub open spec fn coin_windows(s: Seq<Pair>, venues: Seq<String>) -> Set<Seq<char>>
    decreases s.len(),
{
    if s.len() == 0 {
        Set::empty()
    } else {
        coins_of(coin_windows(s.drop_last(), venues), s.last().pair_id@, venues)
    }
}

pub open spec fn coins_of(acc: Set<Seq<char>>, pair: Seq<char>, venues: Seq<String>) -> Set<Seq<char>>
    decreases venues.len(),
{
    if venues.len() == 0 {
        acc
    } else {
        coins_of(acc, pair, venues.drop_last()).insert(coin_key(venues.last()@, pair))
    }
}

pub fn scan_keep_venue_coins(candidates: &Vec<Pair>, venues: &Vec<String>) -> (r: KeySet)
    ensures
        r@.dom() == coin_windows(candidates@, venues@),
{
    let mut out: KeySet = KeyMap::new();
    let mut i: usize = 0;
    proof {
        assert(candidates@.take(0) =~= Seq::empty());
        assert(out@.dom() =~= Set::empty());
    }
    while i < candidates.len()
        invariant
            i <= candidates@.len(),
            out@.dom() == coin_windows(candidates@.take(i as int), venues@),
        decreases candidates.len() - i,
    {
        let ghost start = out@.dom();
        let ghost pid = candidates@[i as int].pair_id@;
        let mut j: usize = 0;
        proof {
            assert(candidates@.take(i + 1).drop_last() =~= candidates@.take(i as int));
            assert(venues@.take(0) =~= Seq::empty());
        }
        while j < venues.len()
            invariant
                i < candidates@.len(),
                pid == candidates@[i as int].pair_id@,
                j <= venues@.len(),
                out@.dom() == coins_of(start, pid, venues@.take(j as int)),
            decreases venues.len() - j,
        {
            proof {
                assert(venues@.take(j + 1).drop_last() =~= venues@.take(j as int));
            }
            let ghost before = out@;
            let key = joined(
                joined(venues[j].as_str(), "|").as_str(),
                candidates[i].pair_id.as_str(),
            );
            out.insert(key.as_str(), ());
            proof {
                assert(out@.dom() =~= before.dom().insert(coin_key(venues@[j as int]@, pid)));
            }
            j = j + 1;
        }
        proof {
            assert(venues@.take(j as int) =~= venues@);
        }
        i = i + 1;
    }
    proof {
        assert(candidates@.take(i as int) =~= candidates@);
    }
    out
}

// ---------------------------------------------------------------------------
// The universe
// ---------------------------------------------------------------------------

/// What the last market of a pair in a list trades, if the pair is in it.
pub open spec fn volume_in(markets: Seq<VenueMarket>, pair: Seq<char>) -> Option<Option<Decimal>>
    decreases markets.len(),
{
    if markets.len() == 0 {
        None
    } else if markets.last().pair_id@ == pair {
        Some(markets.last().volume_24h_usdc)
    } else {
        volume_in(markets.drop_last(), pair)
    }
}

fn find_volume(markets: &Vec<VenueMarket>, pair: &str) -> (r: Option<Option<Decimal>>)
    ensures
        r == volume_in(markets@, pair@),
{
    let mut i: usize = markets.len();
    proof {
        assert(markets@.take(i as int) =~= markets@);
    }
    while i > 0
        invariant
            i <= markets@.len(),
            volume_in(markets@, pair@) == volume_in(markets@.take(i as int), pair@),
        decreases i,
    {
        proof {
            assert(markets@.take(i as int).drop_last() =~= markets@.take(i - 1));
        }
        if same(markets[i - 1].pair_id.as_str(), pair) {
            return Some(markets[i - 1].volume_24h_usdc);
        }
        i = i - 1;
    }
    None
}

/// A market with what its venue says it trades now.
pub open spec fn revalued(m: VenueMarket, venue: Seq<char>, markets: Seq<VenueMarket>) -> VenueMarket {
    if m.venue.0@ == venue && volume_in(markets, m.pair_id@) is Some {
        VenueMarket { volume_24h_usdc: volume_in(markets, m.pair_id@)->0, ..m }
    } else {
        m
    }
}

fn revalue(m: &VenueMarket, venue: &str, markets: &Vec<VenueMarket>) -> (r: VenueMarket)
    ensures
        r == revalued(*m, venue@, markets@),
{
    let mut out = m.clone();
    if same(m.venue.as_str(), venue) {
        if let Some(v) = find_volume(markets, m.pair_id.as_str()) {
            out.volume_24h_usdc = v;
        }
    }
    out
}

/// Takes what a venue says its markets trade into the pairs.
pub fn refresh_scan_volumes(universe: &Vec<Pair>, venue: &str, markets: &Vec<VenueMarket>) -> (r: Vec<
    Pair,
>)
    ensures
        all_parts(r@) == universe@.map_values(
            |p: Pair|
                PairParts {
                    pair_id: p.pair_id,
                    left: revalued(p.legs@[0], venue@, markets@),
                    right: revalued(p.legs@[1], venue@, markets@),
                },
        ),
{
    let mut out: Vec<Pair> = Vec::new();
    let mut i: usize = 0;
    while i < universe.len()
        invariant
            i <= universe@.len(),
            out@.len() == i,
            forall|k: int|
                0 <= k < i ==> parts(#[trigger] out@[k]) == (PairParts {
                    pair_id: universe@[k].pair_id,
                    left: revalued(universe@[k].legs@[0], venue@, markets@),
                    right: revalued(universe@[k].legs@[1], venue@, markets@),
                }),
        decreases universe.len() - i,
    {
        let p = &universe[i];
        out.push(
            Pair {
                pair_id: p.pair_id.clone(),
                legs: [
                    revalue(&p.legs[0], venue, markets),
                    revalue(&p.legs[1], venue, markets),
                ],
            },
        );
        i = i + 1;
    }
    proof {
        assert(all_parts(out@) =~= universe@.map_values(
            |p: Pair|
                PairParts {
                    pair_id: p.pair_id,
                    left: revalued(p.legs@[0], venue@, markets@),
                    right: revalued(p.legs@[1], venue@, markets@),
                },
        ));
    }
    out
}

/// The pairs that still trade enough.
pub open spec fn loud_pairs(s: Seq<Pair>, min: Decimal) -> Seq<PairParts>
    decreases s.len(),
{
    if s.len() == 0 {
        Seq::empty()
    } else {
        let init = loud_pairs(s.drop_last(), min);
        let p = s.last();
        if crate::app::candidates::is_traded(p.legs@[0], min) && crate::app::candidates::is_traded(
            p.legs@[1],
            min,
        ) {
            init.push(parts(p))
        } else {
            init
        }
    }
}

pub fn drop_quiet_pairs(universe: &Vec<Pair>, min: Decimal) -> (r: Vec<Pair>)
    ensures
        all_parts(r@) == loud_pairs(universe@, min),
{
    let mut out: Vec<Pair> = Vec::new();
    let mut i: usize = 0;
    proof {
        assert(universe@.take(0) =~= Seq::empty());
        assert(all_parts(out@) =~= Seq::empty());
    }
    while i < universe.len()
        invariant
            i <= universe@.len(),
            all_parts(out@) == loud_pairs(universe@.take(i as int), min),
        decreases universe.len() - i,
    {
        let ghost before = out@;
        proof {
            assert(universe@.take(i + 1).drop_last() =~= universe@.take(i as int));
        }
        if pair_volume_ok(&universe[i], min) {
            out.push(universe[i].clone());
            proof {
                assert(all_parts(out@) =~= all_parts(before).push(parts(universe@[i as int])));
            }
        }
        i = i + 1;
    }
    proof {
        assert(universe@.take(i as int) =~= universe@);
    }
    out
}

/// The pairs whose books are not both known.
pub open spec fn bookless(s: Seq<Pair>, books: BookMap) -> Seq<PairParts>
    decreases s.len(),
{
    if s.len() == 0 {
        Seq::empty()
    } else {
        let init = bookless(s.drop_last(), books);
        if crate::app::candidates::books_of(books, s.last()) is Some {
            init
        } else {
            init.push(parts(s.last()))
        }
    }
}

pub fn pairs_without_books(universe: &Vec<Pair>, books: &BookMap) -> (r: Vec<Pair>)
    ensures
        all_parts(r@) == bookless(universe@, *books),
{
    let mut out: Vec<Pair> = Vec::new();
    let mut i: usize = 0;
    proof {
        assert(universe@.take(0) =~= Seq::empty());
        assert(all_parts(out@) =~= Seq::empty());
    }
    while i < universe.len()
        invariant
            i <= universe@.len(),
            all_parts(out@) == bookless(universe@.take(i as int), *books),
        decreases universe.len() - i,
    {
        let ghost before = out@;
        proof {
            assert(universe@.take(i + 1).drop_last() =~= universe@.take(i as int));
        }
        if !pair_has_books(&universe[i], books) {
            out.push(universe[i].clone());
            proof {
                assert(all_parts(out@) =~= all_parts(before).push(parts(universe@[i as int])));
            }
        }
        i = i + 1;
    }
    proof {
        assert(universe@.take(i as int) =~= universe@);
    }
    out
}

/// The next pairs whose books are asked for, taken from the front.
pub fn next_probe_batch(queue: &mut Vec<Pair>) -> (r: Vec<Pair>)
    ensures
        ({
            let n = if old(queue)@.len() < COARSE_PROBE_BATCH {
                old(queue)@.len() as int
            } else {
                COARSE_PROBE_BATCH as int
            };
            r@ == old(queue)@.take(n) && final(queue)@ == old(queue)@.skip(n)
        }),
{
    let ghost all = queue@;
    let mut out: Vec<Pair> = Vec::new();
    let n: usize = if queue.len() < COARSE_PROBE_BATCH {
        queue.len()
    } else {
        COARSE_PROBE_BATCH
    };
    let mut i: usize = 0;
    proof {
        assert(out@ =~= all.take(0));
        assert(queue@ =~= all.skip(0));
    }
    while i < n
        invariant
            i <= n <= all.len(),
            out@ == all.take(i as int),
            queue@ == all.skip(i as int),
        decreases n - i,
    {
        let p = queue.remove(0);
        out.push(p);
        i = i + 1;
        proof {
            assert(out@ =~= all.take(i as int));
            assert(queue@ =~= all.skip(i as int));
        }
    }
    out
}

// ---------------------------------------------------------------------------
// Subscriptions
// ---------------------------------------------------------------------------

/// A pair is in a list of markets.
pub open spec fn has_market(s: Seq<VenueMarket>, pair: Seq<char>) -> bool {
    exists|i: int| 0 <= i < s.len() && (#[trigger] s[i]).pair_id@ == pair
}

/// A market put to those of a venue: once for a pair.
pub open spec fn with_market(s: Seq<VenueMarket>, m: VenueMarket, venue: Seq<char>) -> Seq<VenueMarket> {
    if m.venue.0@ == venue && !has_market(s, m.pair_id@) {
        s.push(m)
    } else {
        s
    }
}

/// The markets of a venue among the legs of some pairs.
pub open spec fn markets_on(pairs: Seq<Pair>, venue: Seq<char>) -> Seq<VenueMarket>
    decreases pairs.len(),
{
    if pairs.len() == 0 {
        Seq::empty()
    } else {
        let init = markets_on(pairs.drop_last(), venue);
        with_market(
            with_market(init, pairs.last().legs@[0], venue),
            pairs.last().legs@[1],
            venue,
        )
    }
}

fn take_market(s: &mut Vec<VenueMarket>, m: &VenueMarket, venue: &str)
    ensures
        final(s)@ == with_market(old(s)@, *m, venue@),
{
    if !same(m.venue.as_str(), venue) {
        return;
    }
    let mut i: usize = 0;
    while i < s.len()
        invariant
            i <= s@.len(),
            s@ == old(s)@,
            forall|j: int| 0 <= j < i ==> (#[trigger] s@[j]).pair_id@ != m.pair_id@,
        decreases s.len() - i,
    {
        if same(s[i].pair_id.as_str(), m.pair_id.as_str()) {
            return;
        }
        i = i + 1;
    }
    s.push(m.clone());
}

/// The markets of a venue that are subscribed for some pairs.
pub fn venue_markets(pairs: &Vec<Pair>, venue: &str) -> (r: Vec<VenueMarket>)
    ensures
        r@ == markets_on(pairs@, venue@),
{
    let mut out: Vec<VenueMarket> = Vec::new();
    let mut i: usize = 0;
    proof {
        assert(pairs@.take(0) =~= Seq::empty());
    }
    while i < pairs.len()
        invariant
            i <= pairs@.len(),
            out@ == markets_on(pairs@.take(i as int), venue@),
        decreases pairs.len() - i,
    {
        proof {
            assert(pairs@.take(i + 1).drop_last() =~= pairs@.take(i as int));
        }
        take_market(&mut out, &pairs[i].legs[0], venue);
        take_market(&mut out, &pairs[i].legs[1], venue);
        i = i + 1;
    }
    proof {
        assert(pairs@.take(i as int) =~= pairs@);
    }
    out
}

/// The venues on which some pairs trade.
pub open spec fn venues_of(pairs: Seq<Pair>) -> Set<Seq<char>>
    decreases pairs.len(),
{
    if pairs.len() == 0 {
        Set::empty()
    } else {
        venues_of(pairs.drop_last()).insert(pairs.last().legs@[0].venue.0@).insert(
            pairs.last().legs@[1].venue.0@,
        )
    }
}

pub fn pair_venues(pairs: &Vec<Pair>) -> (r: KeySet)
    ensures
        r@.dom() == venues_of(pairs@),
{
    let mut out: KeySet = KeyMap::new();
    let mut i: usize = 0;
    proof {
        assert(pairs@.take(0) =~= Seq::empty());
        assert(out@.dom() =~= Set::empty());
    }
    while i < pairs.len()
        invariant
            i <= pairs@.len(),
            out@.dom() == venues_of(pairs@.take(i as int)),
        decreases pairs.len() - i,
    {
        proof {
            assert(pairs@.take(i + 1).drop_last() =~= pairs@.take(i as int));
        }
        let ghost before = out@;
        out.insert(pairs[i].legs[0].venue.as_str(), ());
        out.insert(pairs[i].legs[1].venue.as_str(), ());
        proof {
            assert(out@.dom() =~= before.dom().insert(pairs@[i as int].legs@[0].venue.0@).insert(
                pairs@[i as int].legs@[1].venue.0@,
            ));
        }
        i = i + 1;
    }
    proof {
        assert(pairs@.take(i as int) =~= pairs@);
    }
    out
}

// ---------------------------------------------------------------------------
// Laws
// ---------------------------------------------------------------------------

/// A pair is subscribed at most once on a venue.
pub proof fn law_market_subscribed_once(pairs: Seq<Pair>, venue: Seq<char>)
    ensures
        ({
            let s = markets_on(pairs, venue);
            &&& forall|i: int, j: int|
                0 <= i < j < s.len() ==> (#[trigger] s[i]).pair_id@ != (#[trigger] s[j]).pair_id@
            &&& forall|i: int| 0 <= i < s.len() ==> (#[trigger] s[i]).venue.0@ == venue
        }),
    decreases pairs.len(),
{
    if pairs.len() > 0 {
        law_market_subscribed_once(pairs.drop_last(), venue);
        let init = markets_on(pairs.drop_last(), venue);
        lemma_with_market(init, pairs.last().legs@[0], venue);
        lemma_with_market(
            with_market(init, pairs.last().legs@[0], venue),
            pairs.last().legs@[1],
            venue,
        );
    }
}

proof fn lemma_with_market(s: Seq<VenueMarket>, m: VenueMarket, venue: Seq<char>)
    requires
        forall|i: int, j: int|
            0 <= i < j < s.len() ==> (#[trigger] s[i]).pair_id@ != (#[trigger] s[j]).pair_id@,
        forall|i: int| 0 <= i < s.len() ==> (#[trigger] s[i]).venue.0@ == venue,
    ensures
        ({
            let t = with_market(s, m, venue);
            &&& forall|i: int, j: int|
                0 <= i < j < t.len() ==> (#[trigger] t[i]).pair_id@ != (#[trigger] t[j]).pair_id@
            &&& forall|i: int| 0 <= i < t.len() ==> (#[trigger] t[i]).venue.0@ == venue
        }),
{
    let t = with_market(s, m, venue);
    assert forall|i: int, j: int| 0 <= i < j < t.len() implies (#[trigger] t[i]).pair_id@ != (
    #[trigger] t[j]).pair_id@ by {
        assert(t[i] == s[i]);
        if j < s.len() {
            assert(t[j] == s[j]);
        }
    }
}

} // verus!
