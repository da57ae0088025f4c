//! Exponential backoff on errors of a venue for which trying again is no use:
//! an order number out of step, or too many requests.
//!
//! Only opening is held back. A position that stands on the venue must stay
//! closable.

use crate::clock::{elapsed, Duration, Instant, NANOS_PER_SEC};
use crate::keymap::KeyMap;
use crate::text::{contains, has_part, to_lower, unicode_lower};
use vstd::prelude::*;

verus! {

/// The errors that call for a pause.
#[derive(Clone, Copy, Debug, PartialEq, Eq, Structural)]
pub enum BackoffError {
    InvalidNonce,
    RateLimit,
    RateLimitL1,
}

impl BackoffError {
    pub open spec fn word(self) -> Seq<char> {
        match self {
            BackoffError::InvalidNonce => "21104"@,
            BackoffError::RateLimit => "429"@,
            BackoffError::RateLimitL1 => "23000"@,
        }
    }

    pub fn code(self) -> (r: &'static str)
        ensures
            r@ == self.word(),
    {
        match self {
            BackoffError::InvalidNonce => "21104",
            BackoffError::RateLimit => "429",
            BackoffError::RateLimitL1 => "23000",
        }
    }
}

/// The error that a message in lower case tells of. A number alone does not make a
/// rate limit: it may be a price or a quantity.
pub open spec fn classified(low: Seq<char>) -> Option<BackoffError> {
    if has_part(low, "21104"@) || has_part(low, "invalid nonce"@) {
        Some(BackoffError::InvalidNonce)
    } else if has_part(low, "23000"@) {
        Some(BackoffError::RateLimitL1)
    } else if has_part(low, "too many requests"@) || has_part(low, "rate limit"@) {
        Some(BackoffError::RateLimit)
    } else {
        None
    }
}

/// `classify` for a message that is in lower case already.
pub fn classify_lower(low: &str) -> (r: Option<BackoffError>)
    ensures
        r == classified(low@),
{
    if contains(low, "21104") || contains(low, "invalid nonce") {
        return Some(BackoffError::InvalidNonce);
    }
    if contains(low, "23000") {
        return Some(BackoffError::RateLimitL1);
    }
    if contains(low, "too many requests") || contains(low, "rate limit") {
        return Some(BackoffError::RateLimit);
    }
    None
}

/// Tells the errors that call for a pause from the others, which are most.
pub fn classify(msg: &str) -> (r: Option<BackoffError>)
    ensures
        r == classified(unicode_lower(msg@)),
{
    let low = to_lower(msg);
    classify_lower(low.as_str())
}

/// What is known of a venue that erred.
#[derive(Clone, Copy, Debug)]
pub struct VenueState {
    pub error: BackoffError,
    /// How often it erred in a row.
    pub count: u32,
    pub last_error: Instant,
    pub pause_until: Instant,
    pub pause_for: Duration,
    /// The end of the pause has been noted.
    pub recovery_noted: bool,
}

impl VenueState {
    pub fn remaining(&self, now: Instant) -> (r: Duration)
        ensures
            r.nanos == elapsed(self.pause_until, now),
    {
        self.pause_until.since(now)
    }
}

#[derive(Clone, Copy, Debug)]
pub struct BackoffParams {
    pub min: Duration,
    pub max: Duration,
    pub multiplier: u32,
    /// After this long without an error the count starts anew.
    pub reset_after: Duration,
}

impl Default for BackoffParams {
    fn default() -> (r: BackoffParams)
        ensures
            r.min.nanos == 120 * NANOS_PER_SEC,
            r.max.nanos == 3600 * NANOS_PER_SEC,
            r.multiplier == 2,
            r.reset_after.nanos == 1800 * NANOS_PER_SEC,
    {
        BackoffParams {
            min: Duration::from_secs(120),
            max: Duration::from_secs(3600),
            multiplier: 2,
            reset_after: Duration::from_secs(1800),
        }
    }
}

// ---------------------------------------------------------------------------
// How long
// ---------------------------------------------------------------------------

/// `base` to the power `e`.
pub open spec fn power(base: int, e: nat) -> int
    decreases e,
{
    if e == 0 {
        1
    } else {
        base * power(base, (e - 1) as nat)
    }
}

proof fn lemma_power_grows(base: int, e: nat, f: nat)
    requires
        base >= 1,
        e <= f,
    ensures
        1 <= power(base, e) <= power(base, f),
    decreases f,
{
    if e < f {
        lemma_power_grows(base, e, (f - 1) as nat);
        let p = power(base, (f - 1) as nat);
        assert(base * p >= p) by (nonlinear_arith)
            requires
                base >= 1,
                p >= 1,
        ;
    } else if e > 0 {
        lemma_power_grows(base, (e - 1) as nat, (e - 1) as nat);
        let p = power(base, (e - 1) as nat);
        assert(base * p >= 1) by (nonlinear_arith)
            requires
                base >= 1,
                p >= 1,
        ;
    }
}

/// The power that the count stands for, counted up to 32.
pub open spec fn exponent(count: int) -> nat {
    if count <= 1 {
        0
    } else if count > 33 {
        32
    } else {
        (count - 1) as nat
    }
}

/// How many times the shortest pause the count asks for: a factor past 32 bits
/// is the largest of 32 bits, and none is below one.
pub open spec fn factor(multiplier: int, count: int) -> int {
    let p = power(multiplier, exponent(count));
    if p > u32::MAX {
        u32::MAX as int
    } else if p < 1 {
        1
    } else {
        p
    }
}

/// The pause after `count` errors in a row, in nanoseconds.
pub open spec fn pause_nanos(params: BackoffParams, count: int) -> int {
    let p = params.min.nanos * factor(params.multiplier as int, count);
    if p < params.max.nanos {
        p
    } else {
        params.max.nanos as int
    }
}

/// A pause is never longer than the longest.
pub proof fn law_pause_clamped(params: BackoffParams, count: int)
    ensures
        pause_nanos(params, count) <= params.max.nanos,
{
}

/// Another error in a row never shortens the pause.
pub proof fn law_pause_grows(params: BackoffParams, a: int, b: int)
    requires
        a <= b,
        params.multiplier >= 1,
    ensures
        pause_nanos(params, a) <= pause_nanos(params, b),
{
    let m = params.multiplier as int;
    lemma_power_grows(m, exponent(a), exponent(b));
    let f = factor(m, a);
    let g = factor(m, b);
    let x = params.min.nanos as int;
    assert(x * f <= x * g) by (nonlinear_arith)
        requires
            x >= 0,
            f <= g,
    ;
}

fn factor_of(multiplier: u32, count: u32) -> (r: u32)
    ensures
        r == factor(multiplier as int, count as int),
{
    let e: u32 = if count <= 1 {
        0
    } else if count > 33 {
        32
    } else {
        count - 1
    };
    if multiplier == 0 {
        proof {
            if e > 0 {
                assert(power(0, e as nat) == 0 * power(0, (e - 1) as nat));
            }
        }
        return 1;
    }
    let mut p: u64 = 1;
    let mut i: u32 = 0;
    while i < e
        invariant
            multiplier >= 1,
            e == exponent(count as int),
            i <= e,
            1 <= p <= u32::MAX,
            p == power(multiplier as int, i as nat),
        decreases e - i,
    {
        proof {
            let q = p as int;
            let m = multiplier as int;
            assert(0 <= m * q <= u32::MAX * u32::MAX) by (nonlinear_arith)
                requires
                    1 <= m <= u32::MAX,
                    1 <= q <= u32::MAX,
            ;
            assert(power(m, (i + 1) as nat) == m * power(m, i as nat));
            lemma_power_grows(m, (i + 1) as nat, e as nat);
        }
        p = multiplier as u64 * p;
        if p > u32::MAX as u64 {
            return u32::MAX;
        }
        i = i + 1;
    }
    p as u32
}

// ---------------------------------------------------------------------------
// The controller
// ---------------------------------------------------------------------------

pub struct BackoffController {
    venues: KeyMap<VenueState>,
    params: BackoffParams,
}

/// What the controller knows.
pub struct BackoffModel {
    pub venues: Map<Seq<char>, VenueState>,
    pub params: BackoffParams,
}

impl View for BackoffController {
    type V = BackoffModel;

    closed spec fn view(&self) -> BackoffModel {
        BackoffModel { venues: self.venues@, params: self.params }
    }
}

/// How many errors in a row there are with this one: one after a quiet spell.
pub open spec fn next_count(m: BackoffModel, key: Seq<char>, now: Instant) -> int {
    if m.venues.contains_key(key) && elapsed(now, m.venues[key].last_error)
        <= m.params.reset_after.nanos {
        if m.venues[key].count < u32::MAX {
            m.venues[key].count + 1
        } else {
            u32::MAX as int
        }
    } else {
        1
    }
}

/// The venue is known and its pause has not ended.
pub open spec fn pausing(m: BackoffModel, key: Seq<char>, now: Instant) -> bool {
    m.venues.contains_key(key) && now.nanos < m.venues[key].pause_until.nanos
}

impl BackoffController {
    pub fn new(params: BackoffParams) -> (r: BackoffController)
        ensures
            r@ == (BackoffModel { venues: Map::empty(), params }),
    {
        BackoffController { venues: KeyMap::new(), params }
    }

    /// Sets other pauses; the counts stay.
    pub fn set_params(&mut self, params: BackoffParams)
        ensures
            final(self)@ == (BackoffModel { params, ..old(self)@ }),
    {
        self.params = params;
    }

    pub fn is_empty(&self) -> (r: bool)
        ensures
            r == (self@.venues == Map::<Seq<char>, VenueState>::empty()),
    {
        self.venues.is_empty()
    }

    /// What is known of a venue, in whatever case it is written.
    pub fn get(&self, venue: &str) -> (r: Option<&VenueState>)
        ensures
            match r {
                Some(s) => self@.venues.contains_key(unicode_lower(venue@)) && *s
                    == self@.venues[unicode_lower(venue@)],
                None => !self@.venues.contains_key(unicode_lower(venue@)),
            },
    {
        let key = to_lower(venue);
        self.venues.get(key.as_str())
    }

    /// Notes an error and says how long to pause. An error during a pause counts
    /// on and lengthens it.
    pub fn register(&mut self, venue: &str, err: BackoffError, now: Instant) -> (r: Duration)
        ensures
            r.nanos == pause_nanos(
                old(self)@.params,
                next_count(old(self)@, unicode_lower(venue@), now),
            ),
            final(self)@.params == old(self)@.params,
            final(self)@.venues.dom() == old(self)@.venues.dom().insert(unicode_lower(venue@)),
            forall|k: Seq<char>|
                k != unicode_lower(venue@) && #[trigger] old(self)@.venues.contains_key(k)
                    ==> final(self)@.venues[k] == old(self)@.venues[k],
            ({
                let s = final(self)@.venues[unicode_lower(venue@)];
                &&& s.error == err
                &&& s.count == next_count(old(self)@, unicode_lower(venue@), now)
                &&& s.last_error == now
                &&& s.pause_for == r
                &&& s.pause_until.nanos == (if now.nanos + r.nanos <= u128::MAX {
                    now.nanos + r.nanos
                } else {
                    u128::MAX as int
                })
                &&& !s.recovery_noted
            }),
    {
        let key = to_lower(venue);
        let count: u32 = match self.venues.get(key.as_str()) {
            Some(s) => if now.since(s.last_error).nanos > self.params.reset_after.nanos {
                1
            } else if s.count < u32::MAX {
                s.count + 1
            } else {
                u32::MAX
            },
            None => 1,
        };
        let pause_for = self.pause_for(count);
        self.venues.insert(
            key.as_str(),
            VenueState {
                error: err,
                count,
                last_error: now,
                pause_until: now.after(pause_for),
                pause_for,
                recovery_noted: false,
            },
        );
        pause_for
    }

    /// The shortest pause times the multiplier for every error but the first, at
    /// most the longest pause.
    pub fn pause_for(&self, count: u32) -> (r: Duration)
        ensures
            r.nanos == pause_nanos(self@.params, count as int),
    {
        let f: u128 = factor_of(self.params.multiplier, count) as u128;
        let min = self.params.min.nanos;
        let max = self.params.max.nanos;
        proof {
            let x = min as int;
            let y = f as int;
            assert(y >= 1);
            assert(max as int / y >= x ==> x * y <= max) by (nonlinear_arith)
                requires
                    y >= 1,
                    x >= 0,
            ;
            assert((max as int / y) < x ==> x * y >= max) by (nonlinear_arith)
                requires
                    y >= 1,
                    x >= 0,
            ;
        }
        if min <= max / f {
            Duration { nanos: min * f }
        } else {
            self.params.max
        }
    }

    /// The venue is in a pause. Once the pause is over this is noted, and the
    /// count stays for the next error.
    pub fn is_paused(&mut self, venue: &str, now: Instant) -> (r: bool)
        ensures
            r == pausing(old(self)@, unicode_lower(venue@), now),
            final(self)@.params == old(self)@.params,
            final(self)@.venues == (if old(self)@.venues.contains_key(unicode_lower(venue@)) && !r {
                old(self)@.venues.insert(
                    unicode_lower(venue@),
                    VenueState {
                        recovery_noted: true,
                        ..old(self)@.venues[unicode_lower(venue@)]
                    },
                )
            } else {
                old(self)@.venues
            }),
    {
        let key = to_lower(venue);
        let state = match self.venues.get(key.as_str()) {
            Some(s) => *s,
            None => {
                return false;
            },
        };
        if now.nanos < state.pause_until.nanos {
            return true;
        }
        self.venues.insert(key.as_str(), VenueState { recovery_noted: true, ..state });
        false
    }

    /// The venues in a pause in dictionary order, each with its error and the
    /// whole seconds that are left.
    pub fn paused_venues(&self, now: Instant) -> (r: Vec<(String, &'static str, u128)>)
        ensures
            forall|i: int, j: int|
                0 <= i < j < r@.len() ==> crate::text::lex_lt(
                    (#[trigger] r@[i]).0@,
                    (#[trigger] r@[j]).0@,
                ),
            forall|i: int|
                0 <= i < r@.len() ==> {
                    let e = #[trigger] r@[i];
                    &&& pausing(self@, e.0@, now)
                    &&& e.1@ == self@.venues[e.0@].error.word()
                    &&& e.2 == elapsed(self@.venues[e.0@].pause_until, now)
                        / (NANOS_PER_SEC as int)
                },
            forall|k: Seq<char>| #[trigger]
                pausing(self@, k, now) ==> exists|i: int|
                    0 <= i < r@.len() && (#[trigger] r@[i]).0@ == k,
    {
        let keys = self.venues.sorted_keys();
        let mut out: Vec<(String, &'static str, u128)> = Vec::new();
        let mut i: usize = 0;
        while i < keys.len()
            invariant
                crate::keymap::lists_in_order(keys@, self@.venues.dom()),
                i <= keys@.len(),
                out@.len() <= i,
                forall|a: int| 0 <= a < out@.len() ==> exists|b: int|
                    0 <= b < i && (#[trigger] out@[a]).0@ == #[trigger] keys@[b]@,
                forall|a: int, b: int|
                    0 <= a < b < out@.len() ==> crate::text::lex_lt(
                        (#[trigger] out@[a]).0@,
                        (#[trigger] out@[b]).0@,
                    ),
                forall|a: int|
                    0 <= a < out@.len() ==> {
                        let e = #[trigger] out@[a];
                        &&& pausing(self@, e.0@, now)
                        &&& e.1@ == self@.venues[e.0@].error.word()
                        &&& e.2 == elapsed(self@.venues[e.0@].pause_until, now)
                            / (NANOS_PER_SEC as int)
                    },
                forall|b: int|
                    0 <= b < i && pausing(self@, #[trigger] keys@[b]@, now) ==> exists|a: int|
                        0 <= a < out@.len() && (#[trigger] out@[a]).0@ == keys@[b]@,
            decreases keys.len() - i,
        {
            let key = keys[i].clone();
            let ghost before = out@;
            if let Some(s) = self.venues.get(key.as_str()) {
                if now.nanos < s.pause_until.nanos {
                    let left = s.remaining(now).as_secs();
                    let code = s.error.code();
                    proof {
                        assert forall|a: int| 0 <= a < before.len() implies crate::text::lex_lt(
                            (#[trigger] before[a]).0@,
                            key@,
                        ) by {
                            let b = choose|b: int|
                                0 <= b < i && before[a].0@ == #[trigger] keys@[b]@;
                            assert(crate::text::lex_lt(keys@[b]@, keys@[i as int]@));
                        }
                    }
                    out.push((key, code, left));
                    proof {
                        assert(out@[before.len() as int].0@ == keys@[i as int]@);
                        assert forall|b: int|
                            0 <= b < i + 1 && pausing(
                                self@,
                                #[trigger] keys@[b]@,
                                now,
                            ) implies exists|a: int|
                            0 <= a < out@.len() && (#[trigger] out@[a]).0@ == keys@[b]@ by {
                            if b < i {
                                let a = choose|a: int|
                                    0 <= a < before.len() && (#[trigger] before[a]).0@
                                        == keys@[b]@;
                                assert(out@[a].0@ == keys@[b]@);
                            } else {
                                assert(out@[before.len() as int].0@ == keys@[b]@);
                            }
                        }
                    }
                }
            }
            i = i + 1;
        }
        out
    }
}

impl Default for BackoffController {
    fn default() -> (r: BackoffController)
        ensures
            r@.venues == Map::<Seq<char>, VenueState>::empty(),
            r@.params.min.nanos == 120 * NANOS_PER_SEC,
            r@.params.max.nanos == 3600 * NANOS_PER_SEC,
            r@.params.multiplier == 2,
            r@.params.reset_after.nanos == 1800 * NANOS_PER_SEC,
    {
        BackoffController::new(BackoffParams::default())
    }
}

/// After an error the venue is in a pause, unless the pause has no length.
pub proof fn law_error_pauses(m: BackoffModel, key: Seq<char>, s: VenueState, now: Instant)
    requires
        m.venues.contains_key(key),
        m.venues[key] == s,
        s.pause_until.nanos == now.nanos + s.pause_for.nanos,
    ensures
        pausing(m, key, now) <==> s.pause_for.nanos > 0,
{
}

/// The first error in a row asks for the shortest pause, and each further one for so
/// many times the pause before it, as long as that is no longer than the longest pause
/// and so many times fit 32 bits.
pub proof fn law_each_error_multiplies_the_pause(params: BackoffParams, count: int)
    requires
        params.multiplier >= 1,
        1 <= count <= 32,
        power(params.multiplier as int, count as nat) <= u32::MAX,
        pause_nanos(params, count) * params.multiplier <= params.max.nanos,
    ensures
        params.min.nanos <= params.max.nanos ==> pause_nanos(params, 1) == params.min.nanos,
        params.min.nanos > params.max.nanos ==> pause_nanos(params, 1) == params.max.nanos,
        count == 1 ==> pause_nanos(params, count) <= params.min.nanos,
        pause_nanos(params, count) < params.max.nanos ==> pause_nanos(params, count + 1)
            == pause_nanos(params, count) * params.multiplier,
{
    let m = params.multiplier as int;
    let x = params.min.nanos as int;
    lemma_power_grows(m, (count - 1) as nat, count as nat);
    let p = power(m, (count - 1) as nat);
    assert(power(m, count as nat) == m * p);
    assert(x * (m * p) == (x * p) * m) by (nonlinear_arith);
    assert(power(m, 0) == 1);
    assert(factor(m, 1) == 1);
    assert(x * factor(m, 1) == x) by (nonlinear_arith)
        requires
            factor(m, 1) == 1,
    ;
    if pause_nanos(params, count) < params.max.nanos {
        assert(pause_nanos(params, count) == x * p);
    }
}

/// An error within the quiet spell of the one before counts one more; one after it is
/// the first again, as is the first of a venue.
pub proof fn law_errors_are_counted_in_a_row(m: BackoffModel, key: Seq<char>, now: Instant)
    ensures
        !m.venues.contains_key(key) ==> next_count(m, key, now) == 1,
        m.venues.contains_key(key) && now.nanos > m.venues[key].last_error.nanos
            + m.params.reset_after.nanos ==> next_count(m, key, now) == 1,
        m.venues.contains_key(key) && now.nanos <= m.venues[key].last_error.nanos
            + m.params.reset_after.nanos && m.venues[key].count < u32::MAX ==> next_count(
            m,
            key,
            now,
        ) == m.venues[key].count + 1,
{
}

} // verus!
