//! The scan: markets that trade enough, pairs whose books are tight, and of
//! those the ones whose spread swings further than a step costs. One row for
//! each coin.

use crate::app::window_spread::{
    at_least_one, bucket_of, mid_of, mid_spread, mid_spread_pct, middle, own_spread_mid,
    own_spread_mid_pct,
};
use crate::decimal::{
    add_calc, adds_up_exactly, dabs, diff, divides_exactly, dneg, fits, halves_exactly, lemma_half,
    lemma_over_count, lemma_running_sum, lemma_size, lemma_subtracts_exactly, lit, quot,
    running_sum, subtracts_exactly, sum, sums_exactly, units_of, value, ArithError, Calc, Decimal,
};
use crate::domain::book::Bbo;
use crate::domain::grid::{grid_step, grid_step_from_target_bp};
use crate::domain::symbol::Pair;
use crate::keymap::{lemma_mapped, KeyMap, KeySet};
use crate::text::joined;
use std::collections::VecDeque;
use vstd::prelude::*;

pub use crate::app::candidates::{
    candidate_cap, coarse_spread_sum, expand_scan_subscribe, filter_scan_markets,
    merge_coarse_refresh, pair_has_books, pair_volume_ok, rank_bases, select_candidates,
};

verus! {

/// The least number of samples in a window.
pub const MIN_WINDOW_SAMPLES: usize = 10;

pub const COARSE_PROBE_BATCH: usize = 20;

pub const COARSE_PROBE_WAIT_SECS: u64 = 3;

#[derive(Clone, Copy, Debug, PartialEq, Eq, Structural)]
pub enum ScanPhase {
    Idle,
    Starting,
    Coarse,
    Sampling,
    Live,
    Error,
}

impl ScanPhase {
    pub open spec fn word(self) -> Seq<char> {
        match self {
            ScanPhase::Idle => "idle"@,
            ScanPhase::Starting => "starting"@,
            ScanPhase::Coarse => "coarse"@,
            ScanPhase::Sampling => "sampling"@,
            ScanPhase::Live => "live"@,
            ScanPhase::Error => "error"@,
        }
    }

    pub fn as_str(self) -> (r: &'static str)
        ensures
            r@ == self.word(),
    {
        match self {
            ScanPhase::Idle => "idle",
            ScanPhase::Starting => "starting",
            ScanPhase::Coarse => "coarse",
            ScanPhase::Sampling => "sampling",
            ScanPhase::Live => "live",
            ScanPhase::Error => "error",
        }
    }
}

impl Default for ScanPhase {
    fn default() -> (r: ScanPhase)
        ensures
            r == ScanPhase::Idle,
    {
        ScanPhase::Idle
    }
}

/// The means of a coin on a venue; none before the window is full.
#[derive(Clone, Copy, Debug)]
pub struct ScanVenueCell {
    pub mid_mean: Option<Decimal>,
    pub own_spread_mean: Option<Decimal>,
}

/// A pair with a full window, and how far its spread swings beyond a step.
#[derive(Debug)]
pub struct ScoredPair {
    pub pair: Pair,
    pub eligible: bool,
    pub edge: Decimal,
    pub sigma: Decimal,
    pub delta: Decimal,
    pub mu: Decimal,
    pub hub_c: Decimal,
    pub crosses: u32,
    pub n: usize,
    pub cap: usize,
}

pub struct ScanRow {
    pub rank: usize,
    pub base: String,
    pub pair_id: String,
    pub left: String,
    pub right: String,
    pub same_family: bool,
    pub eligible: bool,
    pub edge: Decimal,
    pub sigma: Decimal,
    pub delta: Decimal,
    pub mu: Decimal,
    pub hub_c: Decimal,
    pub crosses: u32,
    pub n: usize,
    pub cap: usize,
    pub venues: KeyMap<ScanVenueCell>,
}

#[derive(Clone, Copy, Debug)]
pub struct CoarseCfg {
    pub min_volume: Decimal,
    pub freshness_ms: u64,
    /// Streamed books are held to their age. Books that were just fetched are
    /// not: a slow answer is still the latest.
    pub require_fresh: bool,
    /// Refuses nothing: the spreads only order the candidates.
    pub max_own_spread_pct: Decimal,
    pub min_level_notional_usdc: Decimal,
}

// ---------------------------------------------------------------------------
// Windows
// ---------------------------------------------------------------------------

/// What is sampled of a pair: the spread of its middles, and each leg's own.
#[derive(Clone, Copy, Debug)]
pub struct SlotSample {
    pub s: Decimal,
    pub c_l: Decimal,
    pub c_r: Decimal,
}

/// What is sampled of a coin on one venue.
#[derive(Clone, Copy, Debug)]
pub struct CoinSample {
    pub mid: Decimal,
    pub spread: Decimal,
}

/// Samples, oldest first, and the bucket of the last.
pub struct Samples<T> {
    pub buf: Seq<T>,
    pub bucket: Option<u64>,
}

/// No samples.
pub open spec fn no_samples<T>() -> Samples<T> {
    Samples { buf: Seq::empty(), bucket: None }
}

/// A sample taken in: the last of a bucket counts, and a full window drops its
/// oldest.
pub open spec fn sampled<T>(m: Samples<T>, x: T, bucket: u64, cap: int) -> Samples<T> {
    if m.bucket == Some(bucket) {
        if m.buf.len() == 0 {
            m
        } else {
            Samples { buf: m.buf.drop_last().push(x), ..m }
        }
    } else {
        Samples {
            buf: (if m.buf.len() == cap && cap > 0 {
                m.buf.drop_first()
            } else {
                m.buf
            }).push(x),
            bucket: Some(bucket),
        }
    }
}

/// The latest `cap` samples.
pub open spec fn latest<T>(m: Samples<T>, cap: int) -> Samples<T> {
    if m.buf.len() > cap {
        Samples { buf: m.buf.skip(m.buf.len() - cap), ..m }
    } else {
        m
    }
}

struct Win<T> {
    buf: VecDeque<T>,
    current_bucket: Option<u64>,
}

impl<T: Copy> Win<T> {
    spec fn model(self) -> Samples<T> {
        Samples { buf: self.buf@, bucket: self.current_bucket }
    }

    fn empty() -> (r: Win<T>)
        ensures
            r.model() == no_samples::<T>(),
    {
        Win { buf: VecDeque::new(), current_bucket: None }
    }

    fn take(&mut self, x: T, bucket: u64, cap: usize)
        ensures
            final(self).model() == sampled(old(self).model(), x, bucket, cap as int),
    {
        let ghost start = self.buf@;
        let same_bucket = match self.current_bucket {
            Some(b) => b == bucket,
            None => false,
        };
        if same_bucket {
            if let Some(_) = self.buf.pop_back() {
                self.buf.push_back(x);
                proof {
                    assert(self.buf@ =~= start.drop_last().push(x));
                }
            }
        } else {
            if self.buf.len() == cap && cap > 0 {
                self.buf.pop_front();
                proof {
                    assert(self.buf@ =~= start.drop_first());
                }
            }
            self.buf.push_back(x);
            self.current_bucket = Some(bucket);
        }
    }

    fn trim(&mut self, cap: usize)
        ensures
            final(self).model() == latest(old(self).model(), cap as int),
    {
        let ghost start = self.model();
        while self.buf.len() > cap
            invariant
                self.current_bucket == start.bucket,
                self.buf@.len() <= start.buf.len(),
                self.buf@ == start.buf.skip(start.buf.len() - self.buf@.len()),
                start.buf.len() > cap ==> self.buf@.len() >= cap,
                start.buf.len() <= cap ==> self.buf@.len() == start.buf.len(),
            decreases self.buf.len(),
        {
            let ghost before = self.buf@;
            self.buf.pop_front();
            proof {
                assert(self.buf@ =~= start.buf.skip(start.buf.len() - self.buf@.len()));
            }
        }
        proof {
            assert(self.buf@ =~= latest(start, cap as int).buf);
        }
    }
}

/// The windows of the scan; apart from those that the grid goes by.
pub struct ScanEngine {
    slots: KeyMap<Win<SlotSample>>,
    venue_coins: KeyMap<Win<CoinSample>>,
    cap: usize,
    interval_ms: u64,
}

pub struct ScanModel {
    pub slots: Map<Seq<char>, Samples<SlotSample>>,
    pub coins: Map<Seq<char>, Samples<CoinSample>>,
    pub cap: int,
    pub interval_ms: int,
}

impl View for ScanEngine {
    type V = ScanModel;

    closed spec fn view(&self) -> ScanModel {
        ScanModel {
            slots: self.slots@.map_values(|w: Win<SlotSample>| w.model()),
            coins: self.venue_coins@.map_values(|w: Win<CoinSample>| w.model()),
            cap: self.cap as int,
            interval_ms: self.interval_ms as int,
        }
    }
}

/// The number of samples in a window, at least the least.
pub open spec fn window_cap(cap: int) -> int {
    if cap < MIN_WINDOW_SAMPLES {
        MIN_WINDOW_SAMPLES as int
    } else {
        cap
    }
}

/// How many samples a slot has.
pub open spec fn samples_of(m: ScanModel, slot: Seq<char>) -> int {
    if m.slots.contains_key(slot) {
        m.slots[slot].buf.len() as int
    } else {
        0
    }
}

/// How many of the pairs have a full window.
pub open spec fn filled_in(m: ScanModel, pairs: Seq<Pair>) -> int
    decreases pairs.len(),
{
    if pairs.len() == 0 {
        0
    } else {
        filled_in(m, pairs.drop_last()) + (if samples_of(m, pairs.last().slot()) >= m.cap {
            1int
        } else {
            0
        })
    }
}

/// How many of the pairs have a window that is not yet full.
pub open spec fn filling_in(m: ScanModel, pairs: Seq<Pair>) -> int
    decreases pairs.len(),
{
    if pairs.len() == 0 {
        0
    } else {
        filling_in(m, pairs.drop_last()) + (if 0 < samples_of(m, pairs.last().slot()) < m.cap {
            1int
        } else {
            0
        })
    }
}

/// The most samples that one of the pairs has.
pub open spec fn most_in(m: ScanModel, pairs: Seq<Pair>) -> int
    decreases pairs.len(),
{
    if pairs.len() == 0 {
        0
    } else {
        let a = most_in(m, pairs.drop_last());
        let b = samples_of(m, pairs.last().slot());
        if b > a {
            b
        } else {
            a
        }
    }
}

/// The name under which a coin of a venue is kept.
pub open spec fn coin_key(venue: Seq<char>, pair: Seq<char>) -> Seq<char> {
    venue + "|"@ + pair
}

fn venue_coin_key(venue: &str, pair_id: &str) -> (r: String)
    ensures
        r@ == coin_key(venue@, pair_id@),
{
    joined(joined(venue, "|").as_str(), pair_id)
}

/// A coin of a venue sampled.
pub open spec fn coin_seen(
    coins: Map<Seq<char>, Samples<CoinSample>>,
    key: Seq<char>,
    x: CoinSample,
    bucket: u64,
    cap: int,
) -> Map<Seq<char>, Samples<CoinSample>> {
    let m = if coins.contains_key(key) {
        coins[key]
    } else {
        no_samples()
    };
    coins.insert(key, sampled(m, x, bucket, cap))
}

fn observe_venue_coin(
    map: &mut KeyMap<Win<CoinSample>>,
    venue: &str,
    pair_id: &str,
    x: CoinSample,
    bucket: u64,
    cap: usize,
)
    ensures
        final(map)@.map_values(|w: Win<CoinSample>| w.model()) == coin_seen(
            old(map)@.map_values(|w: Win<CoinSample>| w.model()),
            coin_key(venue@, pair_id@),
            x,
            bucket,
            cap as int,
        ),
{
    let ghost f = |w: Win<CoinSample>| w.model();
    let ghost start = map@.map_values(f);
    let key = venue_coin_key(venue, pair_id);
    let mut st = match map.remove(key.as_str()) {
        Some(w) => w,
        None => Win::empty(),
    };
    st.take(x, bucket, cap);
    map.insert(key.as_str(), st);
    proof {
        assert(map@.map_values(f) =~= coin_seen(start, key@, x, bucket, cap as int));
    }
}

/// What two books give: the samples of the pair and of its two legs; none where
/// a book has no middle.
pub open spec fn pair_sample(left: Bbo, right: Bbo) -> Result<
    Option<(SlotSample, CoinSample, CoinSample)>,
    ArithError,
> {
    match (
        mid_spread(left, right),
        middle(left),
        middle(right),
        own_spread_mid(left),
        own_spread_mid(right),
    ) {
        (Err(e), _, _, _, _) => Err(e),
        (Ok(None), _, _, _, _) => Ok(None),
        (Ok(Some(s)), Ok(Some(mid_l)), Ok(Some(mid_r)), Ok(Some(c_l)), Ok(Some(c_r))) => Ok(
            Some(
                (
                    SlotSample { s, c_l, c_r },
                    CoinSample { mid: mid_l, spread: c_l },
                    CoinSample { mid: mid_r, spread: c_r },
                ),
            ),
        ),
        _ => Err(ArithError),
    }
}

fn sample_pair(left: &Bbo, right: &Bbo) -> (r: Result<
    Option<(SlotSample, CoinSample, CoinSample)>,
    ArithError,
>)
    ensures
        r == pair_sample(*left, *right),
{
    let s = match mid_spread_pct(left, right)? {
        None => {
            return Ok(None);
        },
        Some(s) => s,
    };
    let mids = (mid_of(left)?, mid_of(right)?);
    let spreads = (own_spread_mid_pct(left)?, own_spread_mid_pct(right)?);
    match (mids.0, mids.1, spreads.0, spreads.1) {
        (Some(mid_l), Some(mid_r), Some(c_l), Some(c_r)) => Ok(
            Some(
                (
                    SlotSample { s, c_l, c_r },
                    CoinSample { mid: mid_l, spread: c_l },
                    CoinSample { mid: mid_r, spread: c_r },
                ),
            ),
        ),
        _ => Ok(None),
    }
}

/// The windows after the books of a pair were seen.
pub open spec fn pair_seen(m: ScanModel, pair: Pair, left: Bbo, right: Bbo, now_ms: int) -> Result<
    ScanModel,
    ArithError,
> {
    match pair_sample(left, right) {
        Err(e) => Err(e),
        Ok(None) => Ok(m),
        Ok(Some((x, l, r))) => {
            let bucket = bucket_of(now_ms, m.interval_ms);
            let slot = pair.slot();
            let was = if m.slots.contains_key(slot) {
                m.slots[slot]
            } else {
                no_samples()
            };
            Ok(
                ScanModel {
                    slots: m.slots.insert(slot, sampled(was, x, bucket, m.cap)),
                    coins: coin_seen(
                        coin_seen(
                            m.coins,
                            coin_key(pair.legs@[0].venue.0@, pair.pair_id@),
                            l,
                            bucket,
                            m.cap,
                        ),
                        coin_key(pair.legs@[1].venue.0@, pair.pair_id@),
                        r,
                        bucket,
                        m.cap,
                    ),
                    ..m
                },
            )
        },
    }
}

/// The windows after one book of a venue was seen.
pub open spec fn venue_book_seen(
    m: ScanModel,
    venue: Seq<char>,
    pair: Seq<char>,
    b: Bbo,
    now_ms: int,
) -> Result<ScanModel, ArithError> {
    if !b.sound() {
        Ok(m)
    } else {
        match (middle(b), own_spread_mid(b)) {
            (Err(e), _) => Err(e),
            (Ok(None), _) => Ok(m),
            (Ok(Some(mid)), Ok(Some(spread))) => Ok(
                ScanModel {
                    coins: coin_seen(
                        m.coins,
                        coin_key(venue, pair),
                        CoinSample { mid, spread },
                        bucket_of(now_ms, m.interval_ms),
                        m.cap,
                    ),
                    ..m
                },
            ),
            _ => Err(ArithError),
        }
    }
}

// ---------------------------------------------------------------------------
// Scores
// ---------------------------------------------------------------------------

pub open spec fn spreads_of(s: Seq<SlotSample>) -> Seq<Decimal> {
    s.map_values(|x: SlotSample| x.s)
}

pub open spec fn left_spreads_of(s: Seq<SlotSample>) -> Seq<Decimal> {
    s.map_values(|x: SlotSample| x.c_l)
}

pub open spec fn right_spreads_of(s: Seq<SlotSample>) -> Seq<Decimal> {
    s.map_values(|x: SlotSample| x.c_r)
}

pub open spec fn mids_of(s: Seq<CoinSample>) -> Seq<Decimal> {
    s.map_values(|x: CoinSample| x.mid)
}

pub open spec fn coin_spreads_of(s: Seq<CoinSample>) -> Seq<Decimal> {
    s.map_values(|x: CoinSample| x.spread)
}

pub open spec fn total_of(s: Seq<Decimal>) -> Calc
    decreases s.len(),
{
    if s.len() == 0 {
        Ok(lit(0, 0))
    } else {
        sum(total_of(s.drop_last()), Ok(s.last()))
    }
}

/// The mean of some numbers.
pub open spec fn average(s: Seq<Decimal>) -> Calc {
    quot(total_of(s), Ok(lit(s.len() as int, 0)))
}

fn mean(xs: &Vec<Decimal>) -> (r: Calc)
    ensures
        r == average(xs@),
{
    let mut acc: Calc = Ok(Decimal::zero());
    let mut i: usize = 0;
    proof {
        assert(xs@.take(0) =~= Seq::empty());
    }
    while i < xs.len()
        invariant
            i <= xs@.len(),
            acc == total_of(xs@.take(i as int)),
        decreases xs.len() - i,
    {
        proof {
            assert(xs@.take(i + 1).drop_last() =~= xs@.take(i as int));
        }
        acc = add_calc(acc, Ok(xs[i]));
        i = i + 1;
    }
    proof {
        assert(xs@.take(i as int) =~= xs@);
    }
    acc?.over(Decimal::from_u64(xs.len() as u64))
}

/// How many of the spreads lie at least `delta` from `mu`.
pub open spec fn crossings(s: Seq<Decimal>, mu: Decimal, delta: Decimal) -> Result<
    int,
    ArithError,
>
    decreases s.len(),
{
    if s.len() == 0 {
        Ok(0)
    } else {
        match (crossings(s.drop_last(), mu, delta), diff(Ok(s.last()), Ok(mu))) {
            (Ok(n), Ok(d)) => Ok(
                if dabs(d).units() >= delta.units() {
                    n + 1
                } else {
                    n
                },
            ),
            _ => Err(ArithError),
        }
    }
}

proof fn lemma_crossings_err(s: Seq<Decimal>, mu: Decimal, delta: Decimal, n: int)
    requires
        0 <= n <= s.len(),
        crossings(s.take(n), mu, delta) is Err,
    ensures
        crossings(s, mu, delta) is Err,
    decreases s.len() - n,
{
    if n == s.len() {
        assert(s.take(n) =~= s);
    } else {
        assert(s.take(n + 1).drop_last() =~= s.take(n));
        lemma_crossings_err(s, mu, delta, n + 1);
    }
}

fn count_crossings(s: &Vec<Decimal>, mu: Decimal, delta: Decimal) -> (r: Result<usize, ArithError>)
    ensures
        match r {
            Ok(n) => crossings(s@, mu, delta) == Ok::<int, ArithError>(n as int),
            Err(_) => crossings(s@, mu, delta) is Err,
        },
{
    let mut n: usize = 0;
    let mut i: usize = 0;
    proof {
        assert(s@.take(0) =~= Seq::empty());
    }
    while i < s.len()
        invariant
            i <= s@.len(),
            n <= i,
            crossings(s@.take(i as int), mu, delta) == Ok::<int, ArithError>(n as int),
        decreases s.len() - i,
    {
        proof {
            assert(s@.take(i + 1).drop_last() =~= s@.take(i as int));
        }
        match s[i].minus(mu) {
            Ok(d) => {
                if d.abs() >= delta {
                    n = n + 1;
                }
            },
            Err(e) => {
                proof {
                    lemma_crossings_err(s@, mu, delta, i + 1);
                }
                return Err(e);
            },
        }
        i = i + 1;
    }
    proof {
        assert(s@.take(i as int) =~= s@);
    }
    Ok(n)
}

/// What a window says of a pair.
pub struct Score {
    pub edge: Decimal,
    pub delta: Decimal,
    pub mu: Decimal,
    pub hub_c: Decimal,
    pub crosses: int,
}

/// The score of a window whose spread has the deviation `sigma`: the edge is by
/// how much that exceeds a step.
pub open spec fn score_of(
    s: Seq<SlotSample>,
    sigma: Decimal,
    target_bp: Decimal,
    round_trip_taker: Decimal,
    hysteresis: Decimal,
) -> Result<Score, ArithError> {
    match (
        average(spreads_of(s)),
        quot(
            sum(average(left_spreads_of(s)), average(right_spreads_of(s))),
            Ok(lit(2, 0)),
        ),
    ) {
        (Ok(mu), Ok(hub_c)) => match grid_step(target_bp, round_trip_taker, hub_c, hysteresis) {
            Err(e) => Err(e),
            Ok(delta) => match (diff(Ok(sigma), Ok(delta)), crossings(spreads_of(s), mu, delta)) {
                (Ok(edge), Ok(crosses)) => Ok(Score { edge, delta, mu, hub_c, crosses }),
                _ => Err(ArithError),
            },
        },
        _ => Err(ArithError),
    }
}

/// The means of a coin on a venue.
pub open spec fn cell_of(m: ScanModel, venue: Seq<char>, pair: Seq<char>) -> Result<
    ScanVenueCell,
    ArithError,
> {
    let key = coin_key(venue, pair);
    if m.coins.contains_key(key) && m.coins[key].buf.len() >= m.cap {
        match (average(mids_of(m.coins[key].buf)), average(coin_spreads_of(m.coins[key].buf))) {
            (Ok(mid), Ok(spread)) => Ok(
                ScanVenueCell { mid_mean: Some(mid), own_spread_mean: Some(spread) },
            ),
            _ => Err(ArithError),
        }
    } else {
        Ok(ScanVenueCell { mid_mean: None, own_spread_mean: None })
    }
}

impl ScanEngine {
    #[verifier::type_invariant]
    spec fn well_formed(self) -> bool {
        self.cap >= MIN_WINDOW_SAMPLES && self.interval_ms >= 1
    }

    pub fn new(cap: usize, interval_ms: u64) -> (r: ScanEngine)
        ensures
            r@.slots == Map::<Seq<char>, Samples<SlotSample>>::empty(),
            r@.coins == Map::<Seq<char>, Samples<CoinSample>>::empty(),
            r@.cap == window_cap(cap as int),
            r@.interval_ms == at_least_one(interval_ms as int),
    {
        let r = ScanEngine {
            slots: KeyMap::new(),
            venue_coins: KeyMap::new(),
            cap: if cap < MIN_WINDOW_SAMPLES {
                MIN_WINDOW_SAMPLES
            } else {
                cap
            },
            interval_ms: if interval_ms < 1 {
                1
            } else {
                interval_ms
            },
        };
        proof {
            assert(r@.slots =~= Map::<Seq<char>, Samples<SlotSample>>::empty());
            assert(r@.coins =~= Map::<Seq<char>, Samples<CoinSample>>::empty());
        }
        r
    }

    /// Sets how many samples a window has and how long a bucket is. Windows that
    /// are too long keep their latest samples.
    pub fn configure(&mut self, cap: usize, interval_ms: u64)
        ensures
            final(self)@.cap == window_cap(cap as int),
            final(self)@.interval_ms == at_least_one(interval_ms as int),
            final(self)@.slots == old(self)@.slots.map_values(
                |m: Samples<SlotSample>| latest(m, window_cap(cap as int)),
            ),
            final(self)@.coins == old(self)@.coins.map_values(
                |m: Samples<CoinSample>| latest(m, window_cap(cap as int)),
            ),
    {
        proof {
            use_type_invariant(&*self);
        }
        let cap: usize = if cap < MIN_WINDOW_SAMPLES {
            MIN_WINDOW_SAMPLES
        } else {
            cap
        };
        let ghost start = self@;
        let mut slots: KeyMap<Win<SlotSample>> = KeyMap::new();
        std::mem::swap(&mut slots, &mut self.slots);
        let ghost all_slots = slots.list();
        let n = slots.len();
        let mut i: usize = 0;
        while i < n
            invariant
                n == all_slots.len(),
                i <= n,
                slots.list().len() == n,
                forall|k: int| 0 <= k < n ==> (#[trigger] slots.list()[k]).0 == all_slots[k].0,
                forall|k: int|
                    0 <= k < i ==> (#[trigger] slots.list()[k]).1.model() == latest(
                        all_slots[k].1.model(),
                        cap as int,
                    ),
                forall|k: int| i <= k < n ==> (#[trigger] slots.list()[k]).1 == all_slots[k].1,
            decreases n - i,
        {
            let mut st = slots.exchange_value(i, Win::empty());
            st.trim(cap);
            slots.exchange_value(i, st);
            i = i + 1;
        }
        let mut coins: KeyMap<Win<CoinSample>> = KeyMap::new();
        std::mem::swap(&mut coins, &mut self.venue_coins);
        let ghost all_coins = coins.list();
        let k = coins.len();
        let mut j: usize = 0;
        while j < k
            invariant
                k == all_coins.len(),
                j <= k,
                coins.list().len() == k,
                forall|a: int| 0 <= a < k ==> (#[trigger] coins.list()[a]).0 == all_coins[a].0,
                forall|a: int|
                    0 <= a < j ==> (#[trigger] coins.list()[a]).1.model() == latest(
                        all_coins[a].1.model(),
                        cap as int,
                    ),
                forall|a: int| j <= a < k ==> (#[trigger] coins.list()[a]).1 == all_coins[a].1,
            decreases k - j,
        {
            let mut st = coins.exchange_value(j, Win::empty());
            st.trim(cap);
            coins.exchange_value(j, st);
            j = j + 1;
        }
        self.slots = slots;
        self.venue_coins = coins;
        self.cap = cap;
        self.interval_ms = if interval_ms < 1 {
            1
        } else {
            interval_ms
        };
        proof {
            let f = |w: Win<SlotSample>| w.model();
            let g = |m: Samples<SlotSample>| latest(m, cap as int);
            lemma_mapped(all_slots, slots.list(), f, g);
            assert(self@.slots =~= start.slots.map_values(g));
            let f2 = |w: Win<CoinSample>| w.model();
            let g2 = |m: Samples<CoinSample>| latest(m, cap as int);
            lemma_mapped(all_coins, coins.list(), f2, g2);
            assert(self@.coins =~= start.coins.map_values(g2));
        }
    }

    pub fn cap(&self) -> (r: usize)
        ensures
            r == self@.cap,
            r >= MIN_WINDOW_SAMPLES,
    {
        proof {
            use_type_invariant(self);
        }
        self.cap
    }

    pub fn clear(&mut self)
        ensures
            final(self)@.slots == Map::<Seq<char>, Samples<SlotSample>>::empty(),
            final(self)@.coins == Map::<Seq<char>, Samples<CoinSample>>::empty(),
            final(self)@.cap == old(self)@.cap,
            final(self)@.interval_ms == old(self)@.interval_ms,
    {
        proof {
            use_type_invariant(&*self);
        }
        self.slots = KeyMap::new();
        self.venue_coins = KeyMap::new();
        proof {
            assert(self@.slots =~= Map::<Seq<char>, Samples<SlotSample>>::empty());
            assert(self@.coins =~= Map::<Seq<char>, Samples<CoinSample>>::empty());
        }
    }

    /// Keeps the named windows only.
    pub fn drop_except(&mut self, keep_slots: &KeySet, keep_venue_coins: &KeySet)
        ensures
            final(self)@ == (ScanModel {
                slots: old(self)@.slots.restrict(keep_slots@.dom()),
                coins: old(self)@.coins.restrict(keep_venue_coins@.dom()),
                ..old(self)@
            }),
    {
        proof {
            use_type_invariant(&*self);
        }
        let ghost start = self@;
        let mut slots: KeyMap<Win<SlotSample>> = KeyMap::new();
        std::mem::swap(&mut slots, &mut self.slots);
        slots.retain(keep_slots);
        self.slots = slots;
        let mut coins: KeyMap<Win<CoinSample>> = KeyMap::new();
        std::mem::swap(&mut coins, &mut self.venue_coins);
        coins.retain(keep_venue_coins);
        self.venue_coins = coins;
        proof {
            assert(self@.slots =~= start.slots.restrict(keep_slots@.dom()));
            assert(self@.coins =~= start.coins.restrict(keep_venue_coins@.dom()));
        }
    }

    fn samples(&self, pair: &Pair) -> (r: usize)
        ensures
            r == samples_of(self@, pair.slot()),
    {
        match self.slots.get(pair.slot_key().as_str()) {
            Some(w) => w.buf.len(),
            None => 0,
        }
    }

    pub fn is_filled(&self, pair: &Pair) -> (r: bool)
        ensures
            r == (samples_of(self@, pair.slot()) >= self@.cap),
    {
        self.samples(pair) >= self.cap
    }

    pub fn filled_n(&self, pairs: &[Pair]) -> (r: usize)
        ensures
            r == filled_in(self@, pairs@),
    {
        let mut n: usize = 0;
        let mut i: usize = 0;
        proof {
            assert(pairs@.take(0) =~= Seq::empty());
        }
        while i < pairs.len()
            invariant
                i <= pairs@.len(),
                n <= i,
                n == filled_in(self@, pairs@.take(i as int)),
            decreases pairs.len() - i,
        {
            proof {
                assert(pairs@.take(i + 1).drop_last() =~= pairs@.take(i as int));
            }
            if self.is_filled(&pairs[i]) {
                n = n + 1;
            }
            i = i + 1;
        }
        proof {
            assert(pairs@.take(i as int) =~= pairs@);
        }
        n
    }

    pub fn sampling_n(&self, pairs: &[Pair]) -> (r: usize)
        ensures
            r == filling_in(self@, pairs@),
    {
        let mut n: usize = 0;
        let mut i: usize = 0;
        proof {
            assert(pairs@.take(0) =~= Seq::empty());
        }
        while i < pairs.len()
            invariant
                i <= pairs@.len(),
                n <= i,
                n == filling_in(self@, pairs@.take(i as int)),
            decreases pairs.len() - i,
        {
            proof {
                assert(pairs@.take(i + 1).drop_last() =~= pairs@.take(i as int));
            }
            let k = self.samples(&pairs[i]);
            if k > 0 && k < self.cap {
                n = n + 1;
            }
            i = i + 1;
        }
        proof {
            assert(pairs@.take(i as int) =~= pairs@);
        }
        n
    }

    /// The longest window of the pairs, for a page that counts down.
    pub fn max_n(&self, pairs: &[Pair]) -> (r: usize)
        ensures
            r == most_in(self@, pairs@),
    {
        let mut n: usize = 0;
        let mut i: usize = 0;
        proof {
            assert(pairs@.take(0) =~= Seq::empty());
        }
        while i < pairs.len()
            invariant
                i <= pairs@.len(),
                n == most_in(self@, pairs@.take(i as int)),
            decreases pairs.len() - i,
        {
            proof {
                assert(pairs@.take(i + 1).drop_last() =~= pairs@.take(i as int));
            }
            let k = self.samples(&pairs[i]);
            if k > n {
                n = k;
            }
            i = i + 1;
        }
        proof {
            assert(pairs@.take(i as int) =~= pairs@);
        }
        n
    }

    /// Takes the books of a pair in. A second without them is not filled with
    /// the last one.
    pub fn observe(&mut self, pair: &Pair, left: &Bbo, right: &Bbo, now_ms: u64) -> (r: Result<
        (),
        ArithError,
    >)
        ensures
            match r {
                Ok(_) => pair_seen(old(self)@, *pair, *left, *right, now_ms as int) == Ok::<
                    ScanModel,
                    ArithError,
                >(final(self)@),
                Err(_) => pair_seen(old(self)@, *pair, *left, *right, now_ms as int) is Err
                    && final(self)@ == old(self)@,
            },
    {
        proof {
            use_type_invariant(&*self);
        }
        let ghost start = self@;
        let (x, l, r) = match sample_pair(left, right)? {
            None => {
                return Ok(());
            },
            Some(s) => s,
        };
        let bucket: u64 = now_ms / self.interval_ms;
        let cap = self.cap;
        let slot = pair.slot_key();
        let mut slots: KeyMap<Win<SlotSample>> = KeyMap::new();
        std::mem::swap(&mut slots, &mut self.slots);
        let mut st = match slots.remove(slot.as_str()) {
            Some(w) => w,
            None => Win::empty(),
        };
        st.take(x, bucket, cap);
        slots.insert(slot.as_str(), st);
        self.slots = slots;
        let mut coins: KeyMap<Win<CoinSample>> = KeyMap::new();
        std::mem::swap(&mut coins, &mut self.venue_coins);
        observe_venue_coin(
            &mut coins,
            pair.legs[0].venue.as_str(),
            pair.pair_id.as_str(),
            l,
            bucket,
            cap,
        );
        observe_venue_coin(
            &mut coins,
            pair.legs[1].venue.as_str(),
            pair.pair_id.as_str(),
            r,
            bucket,
            cap,
        );
        self.venue_coins = coins;
        proof {
            let goal = pair_seen(start, *pair, *left, *right, now_ms as int)->Ok_0;
            assert(self@.slots =~= goal.slots);
        }
        Ok(())
    }

    /// Takes one book of a venue in, whether or not a candidate trades there.
    pub fn observe_venue(&mut self, venue: &str, pair_id: &str, bbo: &Bbo, now_ms: u64) -> (r: Result<
        (),
        ArithError,
    >)
        ensures
            match r {
                Ok(_) => venue_book_seen(old(self)@, venue@, pair_id@, *bbo, now_ms as int)
                    == Ok::<ScanModel, ArithError>(final(self)@),
                Err(_) => venue_book_seen(old(self)@, venue@, pair_id@, *bbo, now_ms as int) is Err
                    && final(self)@ == old(self)@,
            },
    {
        proof {
            use_type_invariant(&*self);
        }
        if !bbo.valid() {
            return Ok(());
        }
        let mid = match mid_of(bbo)? {
            None => {
                return Ok(());
            },
            Some(m) => m,
        };
        let spread = match own_spread_mid_pct(bbo)? {
            None => {
                return Ok(());
            },
            Some(s) => s,
        };
        let bucket: u64 = now_ms / self.interval_ms;
        let cap = self.cap;
        let mut coins: KeyMap<Win<CoinSample>> = KeyMap::new();
        std::mem::swap(&mut coins, &mut self.venue_coins);
        observe_venue_coin(&mut coins, venue, pair_id, CoinSample { mid, spread }, bucket, cap);
        self.venue_coins = coins;
        Ok(())
    }

    /// The spreads of a full window; none before it is full. Their deviation is
    /// what a score goes by.
    pub fn window_spreads(&self, pair: &Pair) -> (r: Option<Vec<Decimal>>)
        ensures
            match r {
                Some(v) => samples_of(self@, pair.slot()) >= self@.cap && v@ == spreads_of(
                    self@.slots[pair.slot()].buf,
                ),
                None => samples_of(self@, pair.slot()) < self@.cap,
            },
    {
        proof {
            use_type_invariant(self);
        }
        match self.slots.get(pair.slot_key().as_str()) {
            None => None,
            Some(w) => if w.buf.len() < self.cap {
                None
            } else {
                Some(columns(w).0)
            },
        }
    }

    /// The score of a pair whose spreads have the deviation `sigma`; none before
    /// the window is full or where there is no deviation.
    pub fn score(
        &self,
        pair: &Pair,
        target_bp: Decimal,
        round_trip_taker: Decimal,
        hysteresis: Decimal,
        sigma: Option<Decimal>,
    ) -> (r: Result<Option<ScoredPair>, ArithError>)
        ensures
            samples_of(self@, pair.slot()) < self@.cap || sigma is None ==> (r matches Ok(None)),
            samples_of(self@, pair.slot()) >= self@.cap && sigma is Some ==> match score_of(
                self@.slots[pair.slot()].buf,
                sigma->0,
                target_bp,
                round_trip_taker,
                hysteresis,
            ) {
                Err(_) => r is Err,
                Ok(x) => r matches Ok(Some(p)) && p.pair.pair_id == pair.pair_id && p.pair.legs@
                    == pair.legs@ && p.eligible == (sigma->0.units() > x.delta.units()) && p.edge
                    == x.edge && p.sigma == sigma->0 && p.delta == x.delta && p.mu == x.mu
                    && p.hub_c == x.hub_c && p.crosses == x.crosses as u32 && p.n == samples_of(
                    self@,
                    pair.slot(),
                ) && p.cap == self@.cap,
            },
            // The edge is by how much the deviation exceeds a step, above zero exactly where
            // the pair is eligible.
            r matches Ok(Some(p)) ==> sums_exactly(p.sigma, dneg(p.delta)) ==> p.edge.units()
                == p.sigma.units() - p.delta.units() && (p.eligible <==> p.edge.units() > 0),
    {
        proof {
            use_type_invariant(self);
        }
        let w = match self.slots.get(pair.slot_key().as_str()) {
            None => {
                return Ok(None);
            },
            Some(w) => w,
        };
        if w.buf.len() < self.cap {
            return Ok(None);
        }
        let sigma = match sigma {
            None => {
                return Ok(None);
            },
            Some(s) => s,
        };
        let (s, c_l, c_r) = columns(w);
        let mu = mean(&s)?;
        let left = mean(&c_l)?;
        let right = mean(&c_r)?;
        let hub_c = left.plus(right)?.over(Decimal::from_int(2))?;
        let delta = grid_step_from_target_bp(target_bp, round_trip_taker, hub_c, hysteresis)?;
        let edge = sigma.minus(delta)?;
        proof {
            if sums_exactly(sigma, dneg(delta)) {
                lemma_subtracts_exactly(sigma, delta);
            }
        }
        let crosses = count_crossings(&s, mu, delta)?;
        Ok(
            Some(
                ScoredPair {
                    pair: pair.clone(),
                    eligible: sigma > delta,
                    edge,
                    sigma,
                    delta,
                    mu,
                    hub_c,
                    crosses: crosses as u32,
                    n: w.buf.len(),
                    cap: self.cap,
                },
            ),
        )
    }

    pub fn venue_cell(&self, venue: &str, pair_id: &str) -> (r: Result<ScanVenueCell, ArithError>)
        ensures
            r == cell_of(self@, venue@, pair_id@),
    {
        let key = venue_coin_key(venue, pair_id);
        match self.venue_coins.get(key.as_str()) {
            Some(w) => if w.buf.len() >= self.cap {
                let (mids, spreads) = coin_columns(w);
                let mid = mean(&mids)?;
                let spread = mean(&spreads)?;
                Ok(ScanVenueCell { mid_mean: Some(mid), own_spread_mean: Some(spread) })
            } else {
                Ok(ScanVenueCell { mid_mean: None, own_spread_mean: None })
            },
            None => Ok(ScanVenueCell { mid_mean: None, own_spread_mean: None }),
        }
    }
}

impl Default for ScanEngine {
    fn default() -> (r: ScanEngine)
        ensures
            r@.slots == Map::<Seq<char>, Samples<SlotSample>>::empty(),
            r@.coins == Map::<Seq<char>, Samples<CoinSample>>::empty(),
            r@.cap == 60,
            r@.interval_ms == 1000,
    {
        ScanEngine::new(60, 1000)
    }
}

fn columns(w: &Win<SlotSample>) -> (r: (Vec<Decimal>, Vec<Decimal>, Vec<Decimal>))
    ensures
        r.0@ == spreads_of(w.model().buf),
        r.1@ == left_spreads_of(w.model().buf),
        r.2@ == right_spreads_of(w.model().buf),
{
    let mut s: Vec<Decimal> = Vec::new();
    let mut l: Vec<Decimal> = Vec::new();
    let mut c: Vec<Decimal> = Vec::new();
    let mut i: usize = 0;
    while i < w.buf.len()
        invariant
            i <= w.buf@.len(),
            s@.len() == i,
            l@.len() == i,
            c@.len() == i,
            forall|k: int| 0 <= k < i ==> #[trigger] s@[k] == w.buf@[k].s,
            forall|k: int| 0 <= k < i ==> #[trigger] l@[k] == w.buf@[k].c_l,
            forall|k: int| 0 <= k < i ==> #[trigger] c@[k] == w.buf@[k].c_r,
        decreases w.buf.len() - i,
    {
        let x = w.buf[i];
        s.push(x.s);
        l.push(x.c_l);
        c.push(x.c_r);
        i = i + 1;
    }
    proof {
        assert(s@ =~= spreads_of(w.buf@));
        assert(l@ =~= left_spreads_of(w.buf@));
        assert(c@ =~= right_spreads_of(w.buf@));
    }
    (s, l, c)
}

fn coin_columns(w: &Win<CoinSample>) -> (r: (Vec<Decimal>, Vec<Decimal>))
    ensures
        r.0@ == mids_of(w.model().buf),
        r.1@ == coin_spreads_of(w.model().buf),
{
    let mut m: Vec<Decimal> = Vec::new();
    let mut s: Vec<Decimal> = Vec::new();
    let mut i: usize = 0;
    while i < w.buf.len()
        invariant
            i <= w.buf@.len(),
            m@.len() == i,
            s@.len() == i,
            forall|k: int| 0 <= k < i ==> #[trigger] m@[k] == w.buf@[k].mid,
            forall|k: int| 0 <= k < i ==> #[trigger] s@[k] == w.buf@[k].spread,
        decreases w.buf.len() - i,
    {
        let x = w.buf[i];
        m.push(x.mid);
        s.push(x.spread);
        i = i + 1;
    }
    proof {
        assert(m@ =~= mids_of(w.buf@));
        assert(s@ =~= coin_spreads_of(w.buf@));
    }
    (m, s)
}

// ---------------------------------------------------------------------------
// Laws
// ---------------------------------------------------------------------------

/// No window has more samples than it may.
pub open spec fn within(m: ScanModel) -> bool {
    &&& m.cap >= 1
    &&& forall|k: Seq<char>| #[trigger]
        m.slots.contains_key(k) ==> m.slots[k].buf.len() <= m.cap
    &&& forall|k: Seq<char>| #[trigger]
        m.coins.contains_key(k) ==> m.coins[k].buf.len() <= m.cap
}

/// Seeing books never makes a window longer than it may be.
pub proof fn law_scan_windows_never_overfull(
    m: ScanModel,
    pair: Pair,
    left: Bbo,
    right: Bbo,
    now_ms: int,
)
    requires
        within(m),
    ensures
        pair_seen(m, pair, left, right, now_ms) matches Ok(n) ==> within(n),
{
}

/// A book of one venue changes no window of a pair, and of the venues' windows
/// only that of its coin.
pub proof fn law_venue_book_touches_one_window(
    m: ScanModel,
    venue: Seq<char>,
    pair: Seq<char>,
    b: Bbo,
    now_ms: int,
    other: Seq<char>,
)
    requires
        other != coin_key(venue, pair),
    ensures
        venue_book_seen(m, venue, pair, b, now_ms) matches Ok(n) ==> n.slots == m.slots && (
        n.coins.contains_key(other) == m.coins.contains_key(other)) && (m.coins.contains_key(other)
            ==> n.coins[other] == m.coins[other]),
{
}

/// The mean of some numbers takes no rounding.
pub open spec fn averages_exactly(s: Seq<Decimal>) -> bool {
    s.len() > 0 && fits(s.len() as int) && adds_up_exactly(s) && divides_exactly(
        running_sum(s),
        Ok(lit(s.len() as int, 0)),
    )
}

proof fn lemma_total(s: Seq<Decimal>)
    ensures
        total_of(s) == running_sum(s),
    decreases s.len(),
{
    if s.len() > 0 {
        lemma_total(s.drop_last());
    }
}

/// The mean of some numbers, times how many they are, is what they come to.
pub proof fn law_average_is_the_mean(s: Seq<Decimal>)
    requires
        averages_exactly(s),
    ensures
        average(s) is Ok,
        value(average(s)) * s.len() == units_of(s),
{
    lemma_total(s);
    lemma_running_sum(s);
    lemma_over_count(total_of(s), s.len() as int);
}

/// How many of the numbers lie at least `far` from `mid`.
pub open spec fn count_far(s: Seq<Decimal>, mid: int, far: int) -> int
    decreases s.len(),
{
    if s.len() == 0 {
        0
    } else {
        count_far(s.drop_last(), mid, far) + (if s.last().units() - mid >= far || mid
            - s.last().units() >= far {
            1int
        } else {
            0
        })
    }
}

proof fn lemma_crossings(s: Seq<Decimal>, mu: Decimal, delta: Decimal)
    requires
        forall|i: int|
            0 <= i < s.len() ==> subtracts_exactly(Ok(#[trigger] s[i]), Ok(mu)) && diff(
                Ok(s[i]),
                Ok(mu),
            )->Ok_0.valid(),
    ensures
        crossings(s, mu, delta) == Ok::<int, ArithError>(
            count_far(s, mu.units(), delta.units()),
        ),
    decreases s.len(),
{
    if s.len() > 0 {
        let t = s.drop_last();
        assert forall|i: int| 0 <= i < t.len() implies subtracts_exactly(
            Ok(#[trigger] t[i]),
            Ok(mu),
        ) && diff(Ok(t[i]), Ok(mu))->Ok_0.valid() by {
            assert(t[i] == s[i]);
        }
        lemma_crossings(t, mu, delta);
        assert(s[s.len() - 1] == s.last());
        lemma_size(diff(Ok(s.last()), Ok(mu))->Ok_0);
    }
}

/// The score of a window takes no rounding.
pub open spec fn scores_exactly(s: Seq<SlotSample>, sigma: Decimal, delta: Decimal) -> bool {
    let mu = average(spreads_of(s))->Ok_0;
    &&& averages_exactly(spreads_of(s))
    &&& averages_exactly(left_spreads_of(s))
    &&& averages_exactly(right_spreads_of(s))
    &&& halves_exactly(average(left_spreads_of(s)), average(right_spreads_of(s)))
    &&& subtracts_exactly(Ok(sigma), Ok(delta))
    &&& forall|i: int|
        0 <= i < spreads_of(s).len() ==> subtracts_exactly(
            Ok(#[trigger] spreads_of(s)[i]),
            Ok(mu),
        ) && diff(Ok(spreads_of(s)[i]), Ok(mu))->Ok_0.valid()
}

/// The score of a window: the mean of its spreads; as the cost the mean of both venues' own
/// spreads; as the width of a step the one for that cost; the edge is by how much the
/// deviation exceeds the step, so that it is above zero exactly where the pair is eligible;
/// and a sample crosses where it lies a step or more from the mean.
pub proof fn law_edge_is_what_the_deviation_has_over_a_step(
    s: Seq<SlotSample>,
    sigma: Decimal,
    target_bp: Decimal,
    round_trip_taker: Decimal,
    hysteresis: Decimal,
    delta: Decimal,
)
    requires
        scores_exactly(s, sigma, delta),
        grid_step(
            target_bp,
            round_trip_taker,
            quot(
                sum(average(left_spreads_of(s)), average(right_spreads_of(s))),
                Ok(lit(2, 0)),
            )->Ok_0,
            hysteresis,
        ) == Ok::<Decimal, ArithError>(delta),
    ensures
        score_of(s, sigma, target_bp, round_trip_taker, hysteresis) matches Ok(x) && {
            &&& x.delta == delta
            &&& x.edge.units() == sigma.units() - delta.units()
            &&& x.edge.units() > 0 <==> sigma.units() > delta.units()
            &&& x.mu.units() * s.len() == units_of(spreads_of(s))
            &&& 2 * x.hub_c.units() * s.len() == units_of(left_spreads_of(s)) + units_of(
                right_spreads_of(s),
            )
            &&& grid_step(target_bp, round_trip_taker, x.hub_c, hysteresis) == Ok::<
                Decimal,
                ArithError,
            >(delta)
            &&& x.crosses == count_far(spreads_of(s), x.mu.units(), delta.units())
        },
{
    law_average_is_the_mean(spreads_of(s));
    law_average_is_the_mean(left_spreads_of(s));
    law_average_is_the_mean(right_spreads_of(s));
    lemma_half(average(left_spreads_of(s)), average(right_spreads_of(s)));
    let mu = average(spreads_of(s))->Ok_0;
    lemma_crossings(spreads_of(s), mu, delta);
    let n = s.len() as int;
    let a = value(average(left_spreads_of(s)));
    let b = value(average(right_spreads_of(s)));
    let h = value(
        quot(sum(average(left_spreads_of(s)), average(right_spreads_of(s))), Ok(lit(2, 0))),
    );
    assert(2 * h * n == a * n + b * n) by (nonlinear_arith)
        requires
            2 * h == a + b,
    ;
}

/// Of two pairs with the same width of a step the one with the larger deviation has the
/// larger edge.
pub proof fn law_larger_deviation_has_the_larger_edge(
    s: Seq<SlotSample>,
    t: Seq<SlotSample>,
    sigma_s: Decimal,
    sigma_t: Decimal,
    target_bp: Decimal,
    round_trip_taker: Decimal,
    hysteresis: Decimal,
)
    requires
        score_of(s, sigma_s, target_bp, round_trip_taker, hysteresis) is Ok,
        score_of(t, sigma_t, target_bp, round_trip_taker, hysteresis) is Ok,
        score_of(s, sigma_s, target_bp, round_trip_taker, hysteresis)->Ok_0.delta.units()
            == score_of(t, sigma_t, target_bp, round_trip_taker, hysteresis)->Ok_0.delta.units(),
        subtracts_exactly(
            Ok(sigma_s),
            Ok(score_of(s, sigma_s, target_bp, round_trip_taker, hysteresis)->Ok_0.delta),
        ),
        subtracts_exactly(
            Ok(sigma_t),
            Ok(score_of(t, sigma_t, target_bp, round_trip_taker, hysteresis)->Ok_0.delta),
        ),
    ensures
        sigma_s.units() > sigma_t.units() <==> score_of(
            s,
            sigma_s,
            target_bp,
            round_trip_taker,
            hysteresis,
        )->Ok_0.edge.units() > score_of(
            t,
            sigma_t,
            target_bp,
            round_trip_taker,
            hysteresis,
        )->Ok_0.edge.units(),
{
}

/// The means of a coin on a venue are those of its window, once it is full.
pub proof fn law_cell_shows_the_means_of_its_window(m: ScanModel, venue: Seq<char>, pair: Seq<char>)
    requires
        m.coins.contains_key(coin_key(venue, pair)),
        ({
            let buf = m.coins[coin_key(venue, pair)].buf;
            buf.len() >= m.cap && averages_exactly(mids_of(buf)) && averages_exactly(
                coin_spreads_of(buf),
            )
        }),
    ensures
        cell_of(m, venue, pair) matches Ok(c) && {
            let buf = m.coins[coin_key(venue, pair)].buf;
            &&& c.mid_mean is Some && c.mid_mean->0.units() * buf.len() == units_of(mids_of(buf))
            &&& c.own_spread_mean is Some && c.own_spread_mean->0.units() * buf.len() == units_of(
                coin_spreads_of(buf),
            )
        },
{
    let buf = m.coins[coin_key(venue, pair)].buf;
    law_average_is_the_mean(mids_of(buf));
    law_average_is_the_mean(coin_spreads_of(buf));
}

/// The last of a bucket counts; a sample of another bucket comes behind the others, and a full
/// window drops its oldest.
pub proof fn law_a_sample_comes_last<T>(m: Samples<T>, x: T, bucket: u64, cap: int)
    requires
        cap >= 1,
        m.buf.len() <= cap,
        m.bucket == Some(bucket) ==> m.buf.len() > 0,
    ensures
        ({
            let n = sampled(m, x, bucket, cap);
            &&& n.bucket == Some(bucket)
            &&& n.buf.len() > 0 && n.buf.last() == x
            &&& m.bucket == Some(bucket) ==> n.buf == m.buf.update(m.buf.len() - 1, x)
            &&& m.bucket != Some(bucket) && m.buf.len() < cap ==> n.buf == m.buf.push(x)
            &&& m.bucket != Some(bucket) && m.buf.len() == cap ==> n.buf == m.buf.push(
                x,
            ).drop_first()
        }),
{
    if m.bucket == Some(bucket) {
        assert(m.buf.drop_last().push(x) =~= m.buf.update(m.buf.len() - 1, x));
    } else if m.buf.len() == cap {
        assert(m.buf.drop_first().push(x) =~= m.buf.push(x).drop_first());
    }
}

/// What is sampled of a pair: the spread of its middles from the left book to the right one,
/// and each leg's own spread and middle, each under its own venue.
pub proof fn law_a_pair_is_sampled_on_both_venues(
    m: ScanModel,
    pair: Pair,
    left: Bbo,
    right: Bbo,
    now_ms: int,
    s: Decimal,
    mid_l: Decimal,
    mid_r: Decimal,
    c_l: Decimal,
    c_r: Decimal,
)
    requires
        mid_spread(left, right) == Ok::<Option<Decimal>, ArithError>(Some(s)),
        middle(left) == Ok::<Option<Decimal>, ArithError>(Some(mid_l)),
        middle(right) == Ok::<Option<Decimal>, ArithError>(Some(mid_r)),
        own_spread_mid(left) == Ok::<Option<Decimal>, ArithError>(Some(c_l)),
        own_spread_mid(right) == Ok::<Option<Decimal>, ArithError>(Some(c_r)),
        !m.slots.contains_key(pair.slot()),
        !m.coins.contains_key(coin_key(pair.legs@[0].venue.0@, pair.pair_id@)),
        !m.coins.contains_key(coin_key(pair.legs@[1].venue.0@, pair.pair_id@)),
        coin_key(pair.legs@[0].venue.0@, pair.pair_id@) != coin_key(
            pair.legs@[1].venue.0@,
            pair.pair_id@,
        ),
    ensures
        pair_seen(m, pair, left, right, now_ms) matches Ok(n) && {
            let kl = coin_key(pair.legs@[0].venue.0@, pair.pair_id@);
            let kr = coin_key(pair.legs@[1].venue.0@, pair.pair_id@);
            &&& n.slots[pair.slot()].buf == seq![SlotSample { s, c_l, c_r }]
            &&& n.coins[kl].buf == seq![CoinSample { mid: mid_l, spread: c_l }]
            &&& n.coins[kr].buf == seq![CoinSample { mid: mid_r, spread: c_r }]
        },
{
}

} // verus!
