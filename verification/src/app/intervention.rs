//! Pairs that wait for a hand: the real position is not known, so neither
//! opening nor closing is safe.
//!
//! The wait ends by itself after half an hour, or once the grid has moved to
//! another step.

use crate::clock::{elapsed, Duration, Instant};
use crate::keymap::{lists_in_order, KeyMap};
use crate::text::{int_text, number_text};
use vstd::prelude::*;

verus! {

/// How long a wait lasts at most, in nanoseconds.
pub const AUTO_RESUME: u128 = 1_800_000_000_000;

/// How many fills of one leg in a row, even if the other was made up for, call
/// for a wait.
pub const SINGLE_LEG_STREAK_LIMIT: u32 = 3;

/// Why a pair waits.
#[derive(Clone, Copy, Debug, PartialEq, Eq, Structural)]
pub enum Cause {
    /// The first leg is filled, the second is not, and the first cannot be
    /// closed.
    NakedLegUnrecoverable,
    /// An order could not be cancelled and may still be filled.
    OrphanOrder,
    /// Closing in an emergency failed.
    EmergencyCloseFailed,
    /// One leg was filled alone too often in a row.
    SingleLegStreak,
    /// What is uncovered is too little to be placed on the other venue.
    NakedBelowMinQty,
    /// Whether the second leg was filled is not known.
    SecondLegUnknown,
}

impl Cause {
    pub open spec fn word(self) -> Seq<char> {
        match self {
            Cause::NakedLegUnrecoverable => "naked_leg_unrecoverable"@,
            Cause::OrphanOrder => "orphan_order"@,
            Cause::EmergencyCloseFailed => "emergency_close_failed"@,
            Cause::SingleLegStreak => "single_leg_streak"@,
            Cause::NakedBelowMinQty => "naked_below_min_qty"@,
            Cause::SecondLegUnknown => "second_leg_unknown"@,
        }
    }

    pub fn as_str(self) -> (r: &'static str)
        ensures
            r@ == self.word(),
    {
        match self {
            Cause::NakedLegUnrecoverable => "naked_leg_unrecoverable",
            Cause::OrphanOrder => "orphan_order",
            Cause::EmergencyCloseFailed => "emergency_close_failed",
            Cause::SingleLegStreak => "single_leg_streak",
            Cause::NakedBelowMinQty => "naked_below_min_qty",
            Cause::SecondLegUnknown => "second_leg_unknown",
        }
    }
}

/// A wait.
#[derive(Debug)]
pub struct Waiting {
    pub cause: Cause,
    pub detail: String,
    pub since: Instant,
    /// The step at which the wait began.
    pub grid_level: Option<i32>,
}

/// A wait, its detail as text.
pub struct WaitingModel {
    pub cause: Cause,
    pub detail: Seq<char>,
    pub since: Instant,
    pub grid_level: Option<i32>,
}

impl Waiting {
    pub open spec fn model(self) -> WaitingModel {
        WaitingModel {
            cause: self.cause,
            detail: self.detail@,
            since: self.since,
            grid_level: self.grid_level,
        }
    }
}

/// What is said of a pair that wants to trade.
#[derive(Debug)]
pub enum Gate {
    Allow,
    /// The question ended the wait.
    Resumed(String),
    Block { cause: Cause, detail: String, waited: Duration },
}

impl Gate {
    pub fn blocked(&self) -> (r: bool)
        ensures
            r == (self is Block),
    {
        match self {
            Gate::Block { .. } => true,
            _ => false,
        }
    }
}

pub struct InterventionGuard {
    pairs: KeyMap<Waiting>,
    streak: KeyMap<u32>,
}

/// The waits and the fills of one leg in a row, by pair.
pub struct GuardModel {
    pub pairs: Map<Seq<char>, WaitingModel>,
    pub streak: Map<Seq<char>, u32>,
}

impl View for InterventionGuard {
    type V = GuardModel;

    closed spec fn view(&self) -> GuardModel {
        GuardModel {
            pairs: self.pairs@.map_values(|w: Waiting| w.model()),
            streak: self.streak@,
        }
    }
}

/// Nothing waits.
pub open spec fn no_waits() -> GuardModel {
    GuardModel { pairs: Map::empty(), streak: Map::empty() }
}

/// A pair put to wait. One that waits already gets another cause, but its time
/// runs on.
pub open spec fn marked(
    m: GuardModel,
    pair: Seq<char>,
    cause: Cause,
    detail: Seq<char>,
    grid_level: Option<i32>,
    now: Instant,
) -> GuardModel {
    GuardModel {
        pairs: m.pairs.insert(
            pair,
            if m.pairs.contains_key(pair) {
                WaitingModel { cause, detail, ..m.pairs[pair] }
            } else {
                WaitingModel { cause, detail, since: now, grid_level }
            },
        ),
        streak: m.streak,
    }
}

/// A pair let go, and its fills of one leg forgotten.
pub open spec fn resumed(m: GuardModel, pair: Seq<char>) -> GuardModel {
    GuardModel { pairs: m.pairs.remove(pair), streak: m.streak.remove(pair) }
}

/// The wait has lasted long enough.
pub open spec fn timed_out(w: WaitingModel, now: Instant) -> bool {
    elapsed(now, w.since) >= AUTO_RESUME
}

/// The grid stands on another step than when the wait began, both being known.
pub open spec fn moved_on(w: WaitingModel, current_grid: Option<i32>) -> bool {
    current_grid matches Some(c) && w.grid_level matches Some(g) && c != g
}

/// The pair waits on.
pub open spec fn waits_on(
    m: GuardModel,
    pair: Seq<char>,
    current_grid: Option<i32>,
    now: Instant,
) -> bool {
    m.pairs.contains_key(pair) && !timed_out(m.pairs[pair], now) && !moved_on(
        m.pairs[pair],
        current_grid,
    )
}

/// What ended a wait: its time, or else the step that the grid has moved to.
pub open spec fn why_resumed(w: WaitingModel, current_grid: Option<i32>, now: Instant) -> Seq<char> {
    if timed_out(w, now) {
        "auto_resume after 30min"@
    } else {
        "grid level changed "@ + number_text(w.grid_level->0 as int) + " -> "@ + number_text(
            current_grid->0 as int,
        )
    }
}

/// How often in a row one leg was filled alone.
pub open spec fn streak_of(m: GuardModel, pair: Seq<char>) -> u32 {
    if m.streak.contains_key(pair) {
        m.streak[pair]
    } else {
        0
    }
}

impl InterventionGuard {
    pub fn new() -> (r: InterventionGuard)
        ensures
            r@ == no_waits(),
    {
        let r = InterventionGuard { pairs: KeyMap::new(), streak: KeyMap::new() };
        proof {
            assert(r@.pairs =~= Map::empty());
        }
        r
    }

    /// Puts a pair to wait and says whether it did not wait before.
    pub fn mark(
        &mut self,
        pair_id: &str,
        cause: Cause,
        detail: &str,
        grid_level: Option<i32>,
        now: Instant,
    ) -> (r: bool)
        ensures
            final(self)@ == marked(old(self)@, pair_id@, cause, detail@, grid_level, now),
            r == !old(self)@.pairs.contains_key(pair_id@),
    {
        let ghost start = self@;
        let (since, level, new) = match self.pairs.get(pair_id) {
            Some(w) => (w.since, w.grid_level, false),
            None => (now, grid_level, true),
        };
        self.pairs.insert(
            pair_id,
            Waiting { cause, detail: detail.to_owned(), since, grid_level: level },
        );
        proof {
            assert(self@.pairs =~= marked(
                start,
                pair_id@,
                cause,
                detail@,
                grid_level,
                now,
            ).pairs);
        }
        new
    }

    /// Asked before opening and before closing. A step that cannot be told does
    /// not end a wait.
    pub fn should_block(
        &mut self,
        pair_id: &str,
        current_grid: Option<i32>,
        now: Instant,
    ) -> (r: Gate)
        ensures
            r is Block <==> waits_on(old(self)@, pair_id@, current_grid, now),
            r is Allow <==> !old(self)@.pairs.contains_key(pair_id@),
            final(self)@ == (if r is Resumed {
                resumed(old(self)@, pair_id@)
            } else {
                old(self)@
            }),
            match r {
                Gate::Allow => true,
                Gate::Block { cause, detail, waited } => {
                    let w = old(self)@.pairs[pair_id@];
                    &&& cause == w.cause
                    &&& detail@ == w.detail
                    &&& waited.nanos == elapsed(now, w.since)
                },
                Gate::Resumed(why) => why@ == why_resumed(
                    old(self)@.pairs[pair_id@],
                    current_grid,
                    now,
                ),
            },
    {
        let (since, level, cause, detail) = match self.pairs.get(pair_id) {
            Some(w) => (w.since, w.grid_level, w.cause, w.detail.clone()),
            None => {
                return Gate::Allow;
            },
        };
        let waited = now.since(since);
        if waited.nanos >= AUTO_RESUME {
            self.resume(pair_id);
            return Gate::Resumed("auto_resume after 30min".to_owned());
        }
        if let Some(cur) = current_grid {
            if let Some(before) = level {
                if cur != before {
                    self.resume(pair_id);
                    let mut why: String = "grid level changed ".to_owned();
                    why.append(int_text(before as i64).as_str());
                    why.append(" -> ");
                    why.append(int_text(cur as i64).as_str());
                    return Gate::Resumed(why);
                }
            }
        }
        Gate::Block { cause, detail, waited }
    }

    /// Lets a pair go and says whether it waited.
    pub fn resume(&mut self, pair_id: &str) -> (r: bool)
        ensures
            final(self)@ == resumed(old(self)@, pair_id@),
            r == old(self)@.pairs.contains_key(pair_id@),
    {
        let ghost start = self@;
        self.streak.remove(pair_id);
        let gone = self.pairs.remove(pair_id);
        proof {
            assert(self@.pairs =~= start.pairs.remove(pair_id@));
        }
        gone.is_some()
    }

    pub fn state(&self, pair_id: &str) -> (r: Option<&Waiting>)
        ensures
            match r {
                Some(w) => self@.pairs.contains_key(pair_id@) && w.model()
                    == self@.pairs[pair_id@],
                None => !self@.pairs.contains_key(pair_id@),
            },
    {
        self.pairs.get(pair_id)
    }

    pub fn is_waiting(&self, pair_id: &str) -> (r: bool)
        ensures
            r == self@.pairs.contains_key(pair_id@),
    {
        self.pairs.contains(pair_id)
    }

    /// The pairs that wait, in dictionary order.
    pub fn waiting_pairs(&self) -> (r: Vec<String>)
        ensures
            lists_in_order(r@, self@.pairs.dom()),
    {
        proof {
            assert(self@.pairs.dom() =~= self.pairs@.dom());
        }
        self.pairs.sorted_keys()
    }

    pub fn is_empty(&self) -> (r: bool)
        ensures
            r == (self@.pairs.dom() == Set::<Seq<char>>::empty()),
    {
        proof {
            assert(self@.pairs.dom() =~= self.pairs@.dom());
            if self.pairs@.dom() == Set::<Seq<char>>::empty() {
                assert(self.pairs@ =~= Map::<Seq<char>, Waiting>::empty());
            }
        }
        self.pairs.is_empty()
    }

    /// Counts a fill of one leg alone, whether or not it was made up for.
    pub fn note_single_leg(&mut self, pair_id: &str) -> (r: u32)
        ensures
            r == (if streak_of(old(self)@, pair_id@) < u32::MAX {
                (streak_of(old(self)@, pair_id@) + 1) as u32
            } else {
                u32::MAX
            }),
            final(self)@ == (GuardModel {
                streak: old(self)@.streak.insert(pair_id@, r),
                ..old(self)@
            }),
    {
        let n = self.streak(pair_id);
        let next: u32 = if n < u32::MAX {
            n + 1
        } else {
            n
        };
        self.streak.insert(pair_id, next);
        next
    }

    /// Both legs were filled: the count starts anew.
    pub fn clear_streak(&mut self, pair_id: &str)
        ensures
            final(self)@ == (GuardModel {
                streak: old(self)@.streak.remove(pair_id@),
                ..old(self)@
            }),
    {
        self.streak.remove(pair_id);
    }

    pub fn streak(&self, pair_id: &str) -> (r: u32)
        ensures
            r == streak_of(self@, pair_id@),
    {
        match self.streak.get(pair_id) {
            Some(n) => *n,
            None => 0,
        }
    }
}

impl Default for InterventionGuard {
    fn default() -> (r: InterventionGuard)
        ensures
            r@ == no_waits(),
    {
        InterventionGuard::new()
    }
}

/// Errors that keep coming do not put off the end of a wait.
pub proof fn law_marking_again_keeps_the_clock(
    m: GuardModel,
    pair: Seq<char>,
    cause: Cause,
    detail: Seq<char>,
    grid_level: Option<i32>,
    now: Instant,
    later: Instant,
)
    requires
        m.pairs.contains_key(pair),
    ensures
        timed_out(marked(m, pair, cause, detail, grid_level, now).pairs[pair], later)
            == timed_out(m.pairs[pair], later),
{
}

/// A wait holds nothing longer than half an hour.
pub proof fn law_every_wait_ends(
    m: GuardModel,
    pair: Seq<char>,
    current_grid: Option<i32>,
    now: Instant,
)
    requires
        m.pairs.contains_key(pair),
        now.nanos >= m.pairs[pair].since.nanos + AUTO_RESUME,
    ensures
        !waits_on(m, pair, current_grid, now),
{
}

/// A pair's wait holds no other pair.
pub proof fn law_pairs_wait_apart(
    m: GuardModel,
    pair: Seq<char>,
    other: Seq<char>,
    cause: Cause,
    detail: Seq<char>,
    grid_level: Option<i32>,
    current_grid: Option<i32>,
    now: Instant,
    later: Instant,
)
    requires
        other != pair,
    ensures
        waits_on(marked(m, pair, cause, detail, grid_level, now), other, current_grid, later)
            == waits_on(m, other, current_grid, later),
        waits_on(resumed(m, pair), other, current_grid, later) == waits_on(
            m,
            other,
            current_grid,
            later,
        ),
{
}

/// A pair that is let go does not wait and starts its count anew.
pub proof fn law_resume_is_clean(
    m: GuardModel,
    pair: Seq<char>,
    current_grid: Option<i32>,
    now: Instant,
)
    ensures
        !waits_on(resumed(m, pair), pair, current_grid, now),
        streak_of(resumed(m, pair), pair) == 0,
{
}

/// A pair that is marked waits for half an hour less a moment, unless the grid is known
/// to stand elsewhere than it was known to stand when the pair was marked.
pub proof fn law_a_wait_lasts_half_an_hour(
    m: GuardModel,
    pair: Seq<char>,
    cause: Cause,
    detail: Seq<char>,
    grid_level: Option<i32>,
    current_grid: Option<i32>,
    now: Instant,
    later: Instant,
)
    requires
        !m.pairs.contains_key(pair),
        now.nanos <= later.nanos,
    ensures
        waits_on(marked(m, pair, cause, detail, grid_level, now), pair, current_grid, later)
            <==> later.nanos - now.nanos < 1_800_000_000_000 && (grid_level is None
            || current_grid is None || grid_level == current_grid),
{
}

} // verus!
