//! Whether prices have been steady.
//!
//! What counts is the distance of the extremes within a window, leg by leg: a
//! single spike is enough. After one the window starts anew.

use crate::clock::{elapsed, Duration, Instant, NANOS_PER_MILLI};
use crate::decimal::{
    diff, dmax, dmin, dround, dtrunc, lemma_lit, lemma_percent, lemma_rounded_whole, lemma_sign,
    lemma_whole, lemma_whole_number, lit, magnitude, multiplies_exactly, percents_exactly, prod,
    quot, subtracts_exactly, value, whole, ArithError, Calc, Decimal,
};
use crate::keymap::{KeyMap, KeySet};
use crate::text::{has_prefix, joined, starts_with};
use vstd::prelude::*;

verus! {

/// The prices of both legs at a time.
#[derive(Clone, Copy, Debug)]
pub struct Sample {
    pub at: Instant,
    pub buy: Decimal,
    pub sell: Decimal,
}

#[derive(Clone, Copy, Debug, PartialEq, Eq, Structural)]
pub enum Stability {
    /// The window is not covered yet.
    Collecting,
    /// The prices moved too far, and the window starts anew.
    Volatile,
    Steady,
}

impl Stability {
    pub open spec fn word(self) -> Seq<char> {
        match self {
            Stability::Collecting => "stability_collecting"@,
            Stability::Volatile => "stability_volatile"@,
            Stability::Steady => "ok"@,
        }
    }

    pub fn passed(self) -> (r: bool)
        ensures
            r == (self == Stability::Steady),
    {
        match self {
            Stability::Steady => true,
            _ => false,
        }
    }

    /// The word under which a pair is counted as passed over.
    pub fn skip_label(self) -> (r: &'static str)
        ensures
            r@ == self.word(),
    {
        match self {
            Stability::Collecting => "stability_collecting",
            Stability::Volatile => "stability_volatile",
            Stability::Steady => "ok",
        }
    }
}

#[derive(Clone, Copy, Debug, PartialEq, Eq, Structural)]
pub enum Action {
    Open,
    Close,
}

impl Action {
    pub open spec fn word(self) -> Seq<char> {
        match self {
            Action::Open => "open"@,
            Action::Close => "close"@,
        }
    }

    pub fn as_str(self) -> (r: &'static str)
        ensures
            r@ == self.word(),
    {
        match self {
            Action::Open => "open",
            Action::Close => "close",
        }
    }
}

// ---------------------------------------------------------------------------
// Windows
// ---------------------------------------------------------------------------

/// The milliseconds of a number of seconds: none where they are below zero or
/// past 64 bits.
pub open spec fn secs_millis(secs: Decimal) -> Result<int, ArithError> {
    match prod(Ok(secs), Ok(lit(1000, 0))) {
        Err(e) => Err(e),
        Ok(ms) => {
            let m = dtrunc(dround(ms, 0)).mant();
            Ok(
                if dround(ms, 0).mant() >= 0 && 0 <= m <= u64::MAX {
                    m
                } else {
                    0
                },
            )
        },
    }
}

fn secs_to_duration(secs: Decimal) -> (r: Result<Duration, ArithError>)
    ensures
        match r {
            Ok(d) => secs_millis(secs) is Ok && d.nanos == secs_millis(secs)->Ok_0
                * NANOS_PER_MILLI && d.nanos <= u64::MAX * NANOS_PER_MILLI,
            Err(_) => secs_millis(secs) is Err,
        },
{
    let ms = secs.times(Decimal::from_int(1000))?.round();
    let m: i128 = ms.trunc().mantissa();
    if ms.is_sign_positive() && 0 <= m && m <= u64::MAX as i128 {
        Ok(Duration::from_millis(m as u64))
    } else {
        Ok(Duration::zero())
    }
}

/// The samples from `from` on.
pub open spec fn since(s: Seq<Sample>, from: Instant) -> Seq<Sample>
    decreases s.len(),
{
    if s.len() == 0 {
        s
    } else if s.last().at.nanos >= from.nanos {
        since(s.drop_last(), from).push(s.last())
    } else {
        since(s.drop_last(), from)
    }
}

fn samples_since(s: &Vec<Sample>, from: Instant) -> (r: Vec<Sample>)
    ensures
        r@ == since(s@, from),
{
    let mut out: Vec<Sample> = Vec::new();
    let mut i: usize = 0;
    proof {
        assert(s@.take(0) =~= Seq::empty());
    }
    while i < s.len()
        invariant
            i <= s@.len(),
            out@ == since(s@.take(i as int), from),
        decreases s.len() - i,
    {
        proof {
            assert(s@.take(i + 1).drop_last() =~= s@.take(i as int));
        }
        if s[i].at.nanos >= from.nanos {
            out.push(s[i]);
        }
        i = i + 1;
    }
    proof {
        assert(s@.take(s@.len() as int) =~= s@);
    }
    out
}

/// The samples of the last `window` nanoseconds.
pub open spec fn recent(s: Seq<Sample>, now: Instant, window: int) -> Seq<Sample> {
    if window <= now.nanos {
        since(s, Instant { nanos: (now.nanos - window) as u128 })
    } else {
        s
    }
}

fn recent_samples(s: &Vec<Sample>, now: Instant, window: Duration) -> (r: Vec<Sample>)
    ensures
        r@ == recent(s@, now, window.nanos as int),
{
    match now.before(window) {
        Some(from) => samples_since(s, from),
        None => {
            proof {
                lemma_all_since(s@);
            }
            samples_since(s, Instant { nanos: 0 })
        },
    }
}

proof fn lemma_all_since(s: Seq<Sample>)
    ensures
        since(s, Instant { nanos: 0 }) == s,
    decreases s.len(),
{
    if s.len() > 0 {
        lemma_all_since(s.drop_last());
        assert(s =~= s.drop_last().push(s.last()));
    }
}

// ---------------------------------------------------------------------------
// Extremes
// ---------------------------------------------------------------------------

/// The smallest of some numbers, the first of equals.
pub open spec fn lowest(v: Seq<Decimal>) -> Decimal
    decreases v.len(),
{
    if v.len() <= 1 {
        v[0]
    } else {
        dmin(lowest(v.drop_last()), v.last())
    }
}

/// The largest of some numbers, the first of equals.
pub open spec fn highest(v: Seq<Decimal>) -> Decimal
    decreases v.len(),
{
    if v.len() <= 1 {
        v[0]
    } else {
        dmax(highest(v.drop_last()), v.last())
    }
}

/// The distance of the extremes in percent of the lower; zero where there is
/// nothing or the lower is not above zero.
pub open spec fn spread_of_extremes(v: Seq<Decimal>) -> Calc {
    if v.len() == 0 || lowest(v).units() <= 0 {
        Ok(lit(0, 0))
    } else {
        prod(
            quot(diff(Ok(highest(v)), Ok(lowest(v))), Ok(lowest(v))),
            Ok(lit(100, 0)),
        )
    }
}

pub fn volatility_pct(vals: &Vec<Decimal>) -> (r: Calc)
    ensures
        r == spread_of_extremes(vals@),
{
    if vals.len() == 0 {
        return Ok(Decimal::zero());
    }
    let mut min = vals[0];
    let mut max = vals[0];
    let mut i: usize = 1;
    while i < vals.len()
        invariant
            1 <= i <= vals@.len(),
            min == lowest(vals@.take(i as int)),
            max == highest(vals@.take(i as int)),
        decreases vals.len() - i,
    {
        proof {
            assert(vals@.take(i + 1).drop_last() =~= vals@.take(i as int));
        }
        min = min.min(vals[i]);
        max = max.max(vals[i]);
        i = i + 1;
    }
    proof {
        assert(vals@.take(vals@.len() as int) =~= vals@);
    }
    if !min.is_positive() {
        return Ok(Decimal::zero());
    }
    max.minus(min)?.over(min)?.times(Decimal::from_int(100))
}

/// Every number lies between the extremes.
pub proof fn law_extremes_bound(v: Seq<Decimal>, i: int)
    requires
        0 <= i < v.len(),
    ensures
        lowest(v).units() <= v[i].units() <= highest(v).units(),
    decreases v.len(),
{
    if v.len() > 1 && i < v.len() - 1 {
        law_extremes_bound(v.drop_last(), i);
    } else if v.len() > 1 {
        law_extremes_bound(v.drop_last(), 0);
    }
}

pub open spec fn buys(s: Seq<Sample>) -> Seq<Decimal> {
    s.map_values(|x: Sample| x.buy)
}

pub open spec fn sells(s: Seq<Sample>) -> Seq<Decimal> {
    s.map_values(|x: Sample| x.sell)
}

fn legs_of(s: &Vec<Sample>) -> (r: (Vec<Decimal>, Vec<Decimal>))
    ensures
        r.0@ == buys(s@),
        r.1@ == sells(s@),
{
    let mut b: Vec<Decimal> = Vec::new();
    let mut c: Vec<Decimal> = Vec::new();
    let mut i: usize = 0;
    while i < s.len()
        invariant
            i <= s@.len(),
            b@ =~= buys(s@.take(i as int)),
            c@ =~= sells(s@.take(i as int)),
        decreases s.len() - i,
    {
        b.push(s[i].buy);
        c.push(s[i].sell);
        i = i + 1;
    }
    proof {
        assert(s@.take(s@.len() as int) =~= s@);
    }
    (b, c)
}

// ---------------------------------------------------------------------------
// The tracker
// ---------------------------------------------------------------------------

pub struct StabilityTracker {
    history: KeyMap<Vec<Sample>>,
    last: KeyMap<Stability>,
}

/// The samples by slot, and the last answer by slot and action.
pub struct StabilityModel {
    pub history: Map<Seq<char>, Seq<Sample>>,
    pub last: Map<Seq<char>, Stability>,
}

impl View for StabilityTracker {
    type V = StabilityModel;

    closed spec fn view(&self) -> StabilityModel {
        StabilityModel {
            history: self.history@.map_values(|v: Vec<Sample>| v@),
            last: self.last@,
        }
    }
}

pub open spec fn history_of(m: StabilityModel, slot: Seq<char>) -> Seq<Sample> {
    if m.history.contains_key(slot) {
        m.history[slot]
    } else {
        Seq::empty()
    }
}

/// The name under which the answer for an action on a slot is kept.
pub open spec fn answer_key(slot: Seq<char>, action: Action) -> Seq<char> {
    slot + ":"@ + action.word()
}

/// The samples that are judged: those of the window, or the last where the
/// window has none.
pub open spec fn judged(s: Seq<Sample>, now: Instant, window: int) -> Seq<Sample> {
    let r = recent(s, now, window);
    if r.len() == 0 {
        seq![s.last()]
    } else {
        r
    }
}

/// The answer. A window or a threshold of zero does not ask.
pub open spec fn verdict_on(
    m: StabilityModel,
    slot: Seq<char>,
    now: Instant,
    window_secs: Decimal,
    threshold_pct: Decimal,
) -> Result<Stability, ArithError> {
    let s = history_of(m, slot);
    if window_secs.units() <= 0 || threshold_pct.units() <= 0 {
        Ok(Stability::Steady)
    } else if s.len() == 0 {
        Ok(Stability::Collecting)
    } else {
        match secs_millis(window_secs) {
            Err(e) => Err(e),
            Ok(ms) => {
                let window = ms * NANOS_PER_MILLI;
                if elapsed(now, s[0].at) < window {
                    Ok(Stability::Collecting)
                } else {
                    let j = judged(s, now, window);
                    match (spread_of_extremes(buys(j)), spread_of_extremes(sells(j))) {
                        (Ok(b), Ok(c)) => if b.units() > threshold_pct.units() || c.units()
                            > threshold_pct.units() {
                            Ok(Stability::Volatile)
                        } else {
                            Ok(Stability::Steady)
                        },
                        _ => Err(ArithError),
                    }
                }
            },
        }
    }
}

/// What is known after an answer: a switched-off check forgets its last answer,
/// and prices that moved too far start the window anew.
pub open spec fn after_verdict(
    m: StabilityModel,
    slot: Seq<char>,
    action: Action,
    off: bool,
    answer: Stability,
) -> StabilityModel {
    let key = answer_key(slot, action);
    StabilityModel {
        history: if answer == Stability::Volatile {
            m.history.remove(slot)
        } else {
            m.history
        },
        last: if off {
            m.last.remove(key)
        } else {
            m.last.insert(key, answer)
        },
    }
}

fn action_key(slot: &str, action: Action) -> (r: String)
    ensures
        r@ == answer_key(slot@, action),
{
    let mut key = joined(slot, ":");
    key.append(action.as_str());
    key
}

impl StabilityTracker {
    pub fn new() -> (r: StabilityTracker)
        ensures
            r@.history == Map::<Seq<char>, Seq<Sample>>::empty(),
            r@.last == Map::<Seq<char>, Stability>::empty(),
    {
        let r = StabilityTracker { history: KeyMap::new(), last: KeyMap::new() };
        proof {
            assert(r@.history =~= Map::<Seq<char>, Seq<Sample>>::empty());
        }
        r
    }

    /// Nothing is known of any slot.
    pub fn is_empty(&self) -> (r: bool)
        ensures
            r == (self@.history.dom() == Set::<Seq<char>>::empty() && self@.last == Map::<
                Seq<char>,
                Stability,
            >::empty()),
    {
        proof {
            assert(self@.history.dom() =~= self.history@.dom());
            if self.history@.dom() == Set::<Seq<char>>::empty() {
                assert(self.history@ =~= Map::<Seq<char>, Vec<Sample>>::empty());
            }
        }
        self.history.is_empty() && self.last.is_empty()
    }

    /// Takes a sample in, to be done on every round. Samples older than twice the
    /// window are dropped; prices that are not above zero are no sample.
    pub fn record(
        &mut self,
        slot: &str,
        buy: Decimal,
        sell: Decimal,
        now: Instant,
        window_secs: Decimal,
    ) -> (r: Result<(), ArithError>)
        ensures
            r is Err <==> buy.units() > 0 && sell.units() > 0 && secs_millis(window_secs) is Err,
            final(self)@ == (if buy.units() > 0 && sell.units() > 0 && r is Ok {
                StabilityModel {
                    history: old(self)@.history.insert(
                        slot@,
                        recent(
                            history_of(old(self)@, slot@).push(Sample { at: now, buy, sell }),
                            now,
                            2 * (secs_millis(window_secs)->Ok_0 * NANOS_PER_MILLI),
                        ),
                    ),
                    ..old(self)@
                }
            } else {
                old(self)@
            }),
    {
        if !buy.is_positive() || !sell.is_positive() {
            return Ok(());
        }
        let window = secs_to_duration(window_secs)?;
        let ghost start = self@;
        let mut list = match self.history.remove(slot) {
            Some(v) => v,
            None => Vec::new(),
        };
        list.push(Sample { at: now, buy, sell });
        let keep = Duration { nanos: window.nanos * 2 };
        let kept = recent_samples(&list, now, keep);
        self.history.insert(slot, kept);
        proof {
            assert(list@ == history_of(start, slot@).push(Sample { at: now, buy, sell }));
            assert(self@.history =~= start.history.insert(slot@, kept@));
        }
        Ok(())
    }

    pub fn check(
        &mut self,
        slot: &str,
        action: Action,
        now: Instant,
        window_secs: Decimal,
        threshold_pct: Decimal,
    ) -> (r: Result<Stability, ArithError>)
        ensures
            r == verdict_on(old(self)@, slot@, now, window_secs, threshold_pct),
            final(self)@ == (match r {
                Ok(answer) => after_verdict(
                    old(self)@,
                    slot@,
                    action,
                    window_secs.units() <= 0 || threshold_pct.units() <= 0,
                    answer,
                ),
                Err(_) => old(self)@,
            }),
    {
        let ghost start = self@;
        let key = action_key(slot, action);
        if !window_secs.is_positive() || !threshold_pct.is_positive() {
            self.last.remove(key.as_str());
            return Ok(Stability::Steady);
        }
        let answer = match self.history.get(slot) {
            None => Stability::Collecting,
            Some(list) => {
                if list.len() == 0 {
                    Stability::Collecting
                } else {
                    let window = secs_to_duration(window_secs)?;
                    if now.since(list[0].at).nanos < window.nanos {
                        Stability::Collecting
                    } else {
                        let mut seen = recent_samples(list, now, window);
                        if seen.len() == 0 {
                            seen.push(list[list.len() - 1]);
                        }
                        proof {
                            assert(seen@ =~= judged(
                                list@,
                                now,
                                window.nanos as int,
                            ));
                        }
                        let (b, c) = legs_of(&seen);
                        let vol_buy = volatility_pct(&b)?;
                        let vol_sell = volatility_pct(&c)?;
                        if vol_buy > threshold_pct || vol_sell > threshold_pct {
                            Stability::Volatile
                        } else {
                            Stability::Steady
                        }
                    }
                }
            },
        };
        if answer == Stability::Volatile {
            self.history.remove(slot);
        }
        self.last.insert(key.as_str(), answer);
        proof {
            assert(self@.history =~= after_verdict(start, slot@, action, false, answer).history);
        }
        Ok(answer)
    }

    /// The answer is another than the last one.
    pub fn changed(&self, slot: &str, action: Action, now_state: Stability) -> (r: bool)
        ensures
            r == !(self@.last.contains_key(answer_key(slot@, action)) && self@.last[answer_key(
                slot@,
                action,
            )] == now_state),
    {
        let key = action_key(slot, action);
        match self.last.get(key.as_str()) {
            Some(s) => *s != now_state,
            None => true,
        }
    }

    /// The larger of the two legs' movements within the window, to be shown.
    pub fn volatility(&self, slot: &str, now: Instant, window_secs: Decimal) -> (r: Result<
        Option<Decimal>,
        ArithError,
    >)
        ensures
            r == ({
                let s = history_of(self@, slot@);
                if s.len() == 0 {
                    Ok(None)
                } else {
                    match secs_millis(window_secs) {
                        Err(e) => Err(e),
                        Ok(ms) => {
                            let j = recent(s, now, ms * NANOS_PER_MILLI);
                            if j.len() == 0 {
                                Ok(None)
                            } else {
                                match (spread_of_extremes(buys(j)), spread_of_extremes(sells(j))) {
                                    (Ok(b), Ok(c)) => Ok(Some(dmax(b, c))),
                                    _ => Err(ArithError),
                                }
                            }
                        },
                    }
                }
            }),
    {
        match self.history.get(slot) {
            None => Ok(None),
            Some(list) => {
                if list.len() == 0 {
                    return Ok(None);
                }
                let window = secs_to_duration(window_secs)?;
                let seen = recent_samples(list, now, window);
                if seen.len() == 0 {
                    return Ok(None);
                }
                let (b, c) = legs_of(&seen);
                let vol_buy = volatility_pct(&b)?;
                let vol_sell = volatility_pct(&c)?;
                Ok(Some(vol_buy.max(vol_sell)))
            },
        }
    }

    /// Forgets a slot: its samples, and the answers kept under its name.
    pub fn forget(&mut self, slot: &str)
        ensures
            final(self)@.history == old(self)@.history.remove(slot@),
            final(self)@.last == old(self)@.last.restrict(
                Set::new(|k: Seq<char>| !has_prefix(k, slot@ + ":"@)),
            ),
    {
        let ghost start = self@;
        self.history.remove(slot);
        let prefix = joined(slot, ":");
        let mut keep: KeySet = KeyMap::new();
        let n = self.last.len();
        let mut i: usize = 0;
        while i < n
            invariant
                n == self.last.list().len(),
                i <= n,
                prefix@ == slot@ + ":"@,
                forall|k: Seq<char>| #[trigger]
                    keep@.contains_key(k) ==> !has_prefix(k, prefix@),
                forall|a: int|
                    0 <= a < i && !has_prefix((#[trigger] self.last.keys()[a]), prefix@)
                        ==> keep@.contains_key(self.last.keys()[a]),
            decreases n - i,
        {
            let key = self.last.key(i);
            if !starts_with(key.as_str(), prefix.as_str()) {
                keep.insert(key.as_str(), ());
            }
            i = i + 1;
        }
        let ghost kept = Set::new(|k: Seq<char>| !has_prefix(k, slot@ + ":"@));
        let ghost known = self.last@;
        proof {
            assert(known.restrict(keep@.dom()) =~= known.restrict(kept)) by {
                assert forall|k: Seq<char>| #[trigger]
                    known.dom().contains(k) && kept.contains(k) implies keep@.dom().contains(k) by {
                    let ks = self.last.keys();
                    assert(ks.to_set().contains(k));
                    let a = choose|a: int| 0 <= a < ks.len() && ks[a] == k;
                    assert(!has_prefix(ks[a], prefix@));
                }
            }
        }
        self.last.retain(&keep);
        proof {
            assert(self@.history =~= start.history.remove(slot@));
        }
    }
}

impl Default for StabilityTracker {
    fn default() -> (r: StabilityTracker)
        ensures
            r@.history == Map::<Seq<char>, Seq<Sample>>::empty(),
            r@.last == Map::<Seq<char>, Stability>::empty(),
    {
        StabilityTracker::new()
    }
}

/// After prices moved too far the next answer is that samples are being
/// collected.
pub proof fn law_volatile_starts_anew(
    m: StabilityModel,
    slot: Seq<char>,
    action: Action,
    next: Action,
    now: Instant,
    window_secs: Decimal,
    threshold_pct: Decimal,
)
    requires
        verdict_on(m, slot, now, window_secs, threshold_pct) == Ok::<Stability, ArithError>(
            Stability::Volatile,
        ),
    ensures
        verdict_on(
            after_verdict(m, slot, action, false, Stability::Volatile),
            slot,
            now,
            window_secs,
            threshold_pct,
        ) == Ok::<Stability, ArithError>(Stability::Collecting),
{
}

/// The answer for one action leaves what is kept for the other as it was.
pub proof fn law_actions_are_independent(m: StabilityModel, slot: Seq<char>, answer: Stability)
    ensures
        ({
            let k = answer_key(slot, Action::Close);
            let n = after_verdict(m, slot, Action::Open, false, answer);
            (n.last.contains_key(k) <==> m.last.contains_key(k)) && (m.last.contains_key(k)
                ==> n.last[k] == m.last[k])
        }),
{
    reveal_strlit("open");
    reveal_strlit("close");
    let a = answer_key(slot, Action::Open);
    let b = answer_key(slot, Action::Close);
    assert(a.len() != b.len());
}

/// How far the extremes are apart takes no rounding.
pub open spec fn moves_exactly(v: Seq<Decimal>) -> bool {
    v.len() == 0 || lowest(v).units() <= 0 || (subtracts_exactly(Ok(highest(v)), Ok(lowest(v)))
        && percents_exactly(diff(Ok(highest(v)), Ok(lowest(v))), Ok(lowest(v))))
}

/// The extremes are among the numbers.
proof fn lemma_extremes_occur(v: Seq<Decimal>)
    requires
        v.len() > 0,
    ensures
        exists|i: int| 0 <= i < v.len() && #[trigger] v[i] == lowest(v),
        exists|i: int| 0 <= i < v.len() && #[trigger] v[i] == highest(v),
    decreases v.len(),
{
    if v.len() == 1 {
        assert(v[0] == lowest(v) && v[0] == highest(v));
    } else {
        let t = v.drop_last();
        lemma_extremes_occur(t);
        let i = choose|i: int| 0 <= i < t.len() && #[trigger] t[i] == lowest(t);
        let j = choose|j: int| 0 <= j < t.len() && #[trigger] t[j] == highest(t);
        assert(v[i] == t[i] && v[j] == t[j]);
        assert(v[v.len() - 1] == v.last());
    }
}

/// How far prices above zero moved: there are a lowest and a highest among them, all lie
/// between the two, and the movement, times the lowest, is a hundred times their distance.
/// So it is at least as large as the movement between any two of the prices, and zero where
/// they are all the same.
pub proof fn law_movement_is_the_distance_of_the_extremes(v: Seq<Decimal>, i: int, j: int)
    requires
        moves_exactly(v),
        0 <= i < v.len(),
        0 <= j < v.len(),
        forall|k: int| 0 <= k < v.len() ==> (#[trigger] v[k]).units() > 0,
    ensures
        spread_of_extremes(v) is Ok,
        ({
            let x = value(spread_of_extremes(v));
            &&& x >= 0
            &&& x * v[i].units() >= 100 * (v[j].units() - v[i].units()) * whole()
            &&& exists|lo: int, hi: int|
                0 <= lo < v.len() && 0 <= hi < v.len() && x * (#[trigger] v[lo]).units() == 100 * ((
                #[trigger] v[hi]).units() - v[lo].units()) * whole()
        }),
{
    law_extremes_bound(v, i);
    law_extremes_bound(v, j);
    lemma_extremes_occur(v);
    lemma_whole();
    let lo = choose|k: int| 0 <= k < v.len() && #[trigger] v[k] == lowest(v);
    let hi = choose|k: int| 0 <= k < v.len() && #[trigger] v[k] == highest(v);
    law_extremes_bound(v, lo);
    lemma_percent(diff(Ok(highest(v)), Ok(lowest(v))), Ok(lowest(v)));
    let x = value(spread_of_extremes(v));
    let a = v[lo].units();
    let b = v[hi].units();
    let p = v[i].units();
    let q = v[j].units();
    let w = whole();
    assert(x * a == 100 * (b - a) * w);
    assert(x >= 0);
    assert(x * p >= 100 * (q - p) * w) by (nonlinear_arith)
        requires
            x * a == 100 * (b - a) * w,
            x >= 0,
            0 < a <= p,
            q <= b,
            w > 0,
    ;
}

/// Samples are kept in their order, exactly those from a time on.
pub proof fn law_samples_from_a_time_on(s: Seq<Sample>, from: Instant, x: Sample)
    ensures
        since(s, from).contains(x) <==> s.contains(x) && x.at.nanos >= from.nanos,
        since(s, from).len() <= s.len(),
    decreases s.len(),
{
    if s.len() > 0 {
        let t = s.drop_last();
        law_samples_from_a_time_on(t, from, x);
        let r = since(t, from);
        if s.contains(x) {
            let i = choose|i: int| 0 <= i < s.len() && s[i] == x;
            if i < t.len() {
                assert(t[i] == x);
            }
        }
        if t.contains(x) {
            let i = choose|i: int| 0 <= i < t.len() && t[i] == x;
            assert(s[i] == x);
        }
        if s.last().at.nanos >= from.nanos {
            if r.push(s.last()).contains(x) {
                let i = choose|i: int| 0 <= i < r.len() + 1 && r.push(s.last())[i] == x;
                if i < r.len() {
                    assert(r[i] == x);
                } else {
                    assert(s[s.len() - 1] == x);
                }
            }
            if r.contains(x) {
                let i = choose|i: int| 0 <= i < r.len() && r[i] == x;
                assert(r.push(s.last())[i] == x);
            }
            if x == s.last() {
                assert(r.push(s.last())[r.len() as int] == x);
            }
        }
    }
}

/// Prices are steady once the oldest sample is as old as the window and neither leg moved
/// further than the threshold; before that samples are collected, and a leg that moved
/// further makes them volatile.
pub proof fn law_steady_is_within_the_threshold(
    m: StabilityModel,
    slot: Seq<char>,
    now: Instant,
    window_secs: Decimal,
    threshold_pct: Decimal,
)
    requires
        window_secs.units() > 0,
        threshold_pct.units() > 0,
        history_of(m, slot).len() > 0,
        secs_millis(window_secs) is Ok,
        ({
            let window = secs_millis(window_secs)->Ok_0 * NANOS_PER_MILLI;
            let j = judged(history_of(m, slot), now, window);
            spread_of_extremes(buys(j)) is Ok && spread_of_extremes(sells(j)) is Ok
        }),
    ensures
        ({
            let window = secs_millis(window_secs)->Ok_0 * NANOS_PER_MILLI;
            let s = history_of(m, slot);
            let j = judged(s, now, window);
            let v = verdict_on(m, slot, now, window_secs, threshold_pct);
            let waited = elapsed(now, s[0].at) >= window;
            let still = value(spread_of_extremes(buys(j))) <= threshold_pct.units() && value(
                spread_of_extremes(sells(j)),
            ) <= threshold_pct.units();
            &&& v is Ok
            &&& v->Ok_0 == Stability::Steady <==> waited && still
            &&& v->Ok_0 == Stability::Collecting <==> !waited
            &&& v->Ok_0 == Stability::Volatile <==> waited && !still
        }),
{
}

/// The samples of the last while are those that are no longer ago than it.
pub proof fn law_recent_samples_are_no_older_than_the_window(
    s: Seq<Sample>,
    now: Instant,
    window: int,
    x: Sample,
)
    requires
        window >= 0,
    ensures
        recent(s, now, window).contains(x) <==> s.contains(x) && elapsed(now, x.at) <= window,
{
    if window <= now.nanos {
        law_samples_from_a_time_on(s, Instant { nanos: (now.nanos - window) as u128 }, x);
    }
}

/// A number of seconds is taken to the nearest millisecond.
pub proof fn law_seconds_to_the_nearest_millisecond(secs: Decimal)
    requires
        multiplies_exactly(Ok(secs), Ok(lit(1000, 0))),
        prod(Ok(secs), Ok(lit(1000, 0)))->Ok_0.valid(),
        0 <= secs.units() * 1000 <= u64::MAX * whole(),
    ensures
        secs_millis(secs) matches Ok(ms) && 2 * magnitude(ms * whole() - 1000 * secs.units())
            <= whole(),
{
    broadcast use lemma_lit, lemma_sign;

    lemma_whole();
    lemma_whole_number(1000);
    let w = whole();
    let a = prod(Ok(secs), Ok(lit(1000, 0)))->Ok_0;
    let x = a.units();
    let y = secs.units();
    assert(x == 1000 * y) by (nonlinear_arith)
        requires
            x * w == y * (1000 * w),
            w > 0,
    ;
    lemma_rounded_whole(a);
    let m = dround(a, 0).mant();
    assert(2 * magnitude(m * w - x) <= w);
    assert(0 <= m <= u64::MAX) by (nonlinear_arith)
        requires
            2 * magnitude(m * w - x) <= w,
            w > 0,
            0 <= x <= u64::MAX * w,
    ;
    assert(secs_millis(secs) == Ok::<int, ArithError>(m));
}

} // verus!
