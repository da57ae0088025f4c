//! Pairs that a venue lets be reduced only.
//!
//! The venue says so, and trying again does not change it: the first such error
//! blocks opening. Closing goes on, unless the venue refuses that too. A probe
//! once an hour finds out whether opening works again.

use crate::clock::Instant;
use crate::keymap::{lists_in_order, KeyMap};
use crate::text::{contains, has_part, to_lower, unicode_lower};
use vstd::prelude::*;

verus! {

/// A message in lower case says that a market can be reduced only.
pub open spec fn says_reduce_only(low: Seq<char>) -> bool {
    has_part(low, "invalid reduce only mode"@) || has_part(low, "21740"@) || has_part(
        low,
        "reduce only order would increase"@,
    ) || has_part(low, "reduce only order"@)
}

/// `is_reduce_only_error` for a message that is in lower case already.
pub fn is_reduce_only_lower(low: &str) -> (r: bool)
    ensures
        r == says_reduce_only(low@),
{
    contains(low, "invalid reduce only mode") || contains(low, "21740") || contains(
        low,
        "reduce only order would increase",
    ) || contains(low, "reduce only order")
}

pub fn is_reduce_only_error(msg: &str) -> (r: bool)
    ensures
        r == says_reduce_only(unicode_lower(msg@)),
{
    let low = to_lower(msg);
    is_reduce_only_lower(low.as_str())
}

/// The time is within a minute from the second of the hour at which a probe is
/// due, and none was made this hour.
pub open spec fn due(unix_secs: int, probe_second: int, probed_hour: Option<i64>) -> bool {
    let hour = unix_secs / 3600;
    let into = unix_secs % 3600;
    !(probed_hour matches Some(h) && h == hour) && probe_second <= into < probe_second + 60
}

/// Whole hours since the epoch.
pub fn hour_of(unix_secs: i64) -> (r: i64)
    ensures
        r == unix_secs as int / 3600,
{
    if unix_secs >= 0 {
        unix_secs / 3600
    } else {
        let back: i64 = -(unix_secs + 1);
        -(back / 3600) - 1
    }
}

pub fn probe_due(unix_secs: i64, probe_second: u32, probed_hour: Option<i64>) -> (r: bool)
    ensures
        r == due(unix_secs as int, probe_second as int, probed_hour),
{
    let hour = hour_of(unix_secs);
    if let Some(h) = probed_hour {
        if h == hour {
            return false;
        }
    }
    let into_hour: i128 = unix_secs as i128 - hour as i128 * 3600;
    let start: i128 = probe_second as i128;
    into_hour >= start && into_hour < start + 60
}

/// After a probe none is due in the same hour.
pub proof fn law_one_probe_an_hour(unix_secs: int, probe_second: int, probed_hour: Option<i64>)
    requires
        probed_hour matches Some(h) && h == unix_secs / 3600,
    ensures
        !due(unix_secs, probe_second, probed_hour),
{
}

/// What is known of a pair that can be reduced only.
pub struct PairState {
    /// Opening is blocked.
    pub blocked: bool,
    /// Closing is blocked too.
    pub closing_blocked: bool,
    pub first_detected: Instant,
    pub last_error: Option<String>,
    /// The venues that said so.
    pub failed_venues: KeyMap<()>,
    pub last_probe: Option<Instant>,
    /// The hour of the last probe, counted from the epoch.
    pub probed_hour: Option<i64>,
}

/// A pair's state, its texts as sequences.
pub struct PairModel {
    pub blocked: bool,
    pub closing_blocked: bool,
    pub first_detected: Instant,
    pub last_error: Option<Seq<char>>,
    pub failed_venues: Set<Seq<char>>,
    pub last_probe: Option<Instant>,
    pub probed_hour: Option<i64>,
}

impl PairState {
    pub open spec fn model(self) -> PairModel {
        PairModel {
            blocked: self.blocked,
            closing_blocked: self.closing_blocked,
            first_detected: self.first_detected,
            last_error: match self.last_error {
                Some(e) => Some(e@),
                None => None,
            },
            failed_venues: self.failed_venues@.dom(),
            last_probe: self.last_probe,
            probed_hour: self.probed_hour,
        }
    }
}

pub struct ReduceOnlyGuard {
    pairs: KeyMap<PairState>,
}

impl View for ReduceOnlyGuard {
    type V = Map<Seq<char>, PairModel>;

    closed spec fn view(&self) -> Map<Seq<char>, PairModel> {
        self.pairs@.map_values(|s: PairState| s.model())
    }
}

/// A pair that was not known.
pub open spec fn fresh_pair(now: Instant) -> PairModel {
    PairModel {
        blocked: true,
        closing_blocked: false,
        first_detected: now,
        last_error: None,
        failed_venues: Set::empty(),
        last_probe: None,
        probed_hour: None,
    }
}

/// A venue's name among others; a blank is no name.
pub open spec fn with_venue(s: Set<Seq<char>>, venue: Seq<char>) -> Set<Seq<char>> {
    if venue.len() == 0 {
        s
    } else {
        s.insert(venue)
    }
}

/// An error noted. The time of the first stays, and closing once blocked stays
/// blocked.
pub open spec fn noted(
    m: Map<Seq<char>, PairModel>,
    pair: Seq<char>,
    venue: Seq<char>,
    reason: Seq<char>,
    closing_blocked: bool,
    now: Instant,
) -> Map<Seq<char>, PairModel> {
    let p = if m.contains_key(pair) {
        m[pair]
    } else {
        fresh_pair(now)
    };
    m.insert(
        pair,
        PairModel {
            blocked: true,
            closing_blocked: p.closing_blocked || closing_blocked,
            last_error: Some(reason),
            failed_venues: with_venue(p.failed_venues, venue),
            ..p
        },
    )
}

/// A probe noted: where it worked the pair is free.
pub open spec fn probed(
    m: Map<Seq<char>, PairModel>,
    pair: Seq<char>,
    venue: Seq<char>,
    success: bool,
    now: Instant,
) -> Map<Seq<char>, PairModel> {
    if !m.contains_key(pair) {
        m
    } else if success {
        m.remove(pair)
    } else {
        m.insert(
            pair,
            PairModel {
                last_probe: Some(now),
                failed_venues: with_venue(m[pair].failed_venues, venue),
                ..m[pair]
            },
        )
    }
}

/// Opening is blocked.
pub open spec fn opening_blocked(m: Map<Seq<char>, PairModel>, pair: Seq<char>) -> bool {
    m.contains_key(pair) && m[pair].blocked
}

/// Closing is blocked.
pub open spec fn closing_blocked(m: Map<Seq<char>, PairModel>, pair: Seq<char>) -> bool {
    m.contains_key(pair) && m[pair].closing_blocked
}

fn add_venue(set: &mut KeyMap<()>, venue: &str)
    ensures
        final(set)@.dom() == with_venue(old(set)@.dom(), venue@),
{
    if venue.unicode_len() > 0 {
        let ghost before = set@;
        set.insert(venue, ());
        proof {
            assert(set@.dom() =~= before.dom().insert(venue@));
        }
    }
}

impl ReduceOnlyGuard {
    pub fn new() -> (r: ReduceOnlyGuard)
        ensures
            r@ == Map::<Seq<char>, PairModel>::empty(),
    {
        let r = ReduceOnlyGuard { pairs: KeyMap::new() };
        proof {
            assert(r@ =~= Map::<Seq<char>, PairModel>::empty());
        }
        r
    }

    pub fn mark(
        &mut self,
        pair_id: &str,
        venue: &str,
        reason: &str,
        closing_blocked: bool,
        now: Instant,
    )
        ensures
            final(self)@ == noted(old(self)@, pair_id@, venue@, reason@, closing_blocked, now),
    {
        let ghost start = self@;
        let mut st = match self.pairs.remove(pair_id) {
            Some(s) => s,
            None => PairState {
                blocked: true,
                closing_blocked: false,
                first_detected: now,
                last_error: None,
                failed_venues: KeyMap::new(),
                last_probe: None,
                probed_hour: None,
            },
        };
        proof {
            assert(!start.contains_key(pair_id@) ==> st.failed_venues@.dom() =~= Set::empty());
        }
        st.blocked = true;
        st.closing_blocked = st.closing_blocked || closing_blocked;
        st.last_error = Some(reason.to_owned());
        add_venue(&mut st.failed_venues, venue);
        self.pairs.insert(pair_id, st);
        proof {
            assert(self@ =~= noted(start, pair_id@, venue@, reason@, closing_blocked, now));
        }
    }

    pub fn is_blocked(&self, pair_id: &str) -> (r: bool)
        ensures
            r == opening_blocked(self@, pair_id@),
    {
        match self.pairs.get(pair_id) {
            Some(s) => s.blocked,
            None => false,
        }
    }

    pub fn is_closing_blocked(&self, pair_id: &str) -> (r: bool)
        ensures
            r == closing_blocked(self@, pair_id@),
    {
        match self.pairs.get(pair_id) {
            Some(s) => s.closing_blocked,
            None => false,
        }
    }

    pub fn state(&self, pair_id: &str) -> (r: Option<&PairState>)
        ensures
            match r {
                Some(s) => self@.contains_key(pair_id@) && s.model() == self@[pair_id@],
                None => !self@.contains_key(pair_id@),
            },
    {
        self.pairs.get(pair_id)
    }

    pub fn clear(&mut self, pair_id: &str)
        ensures
            final(self)@ == old(self)@.remove(pair_id@),
    {
        let ghost start = self@;
        self.pairs.remove(pair_id);
        proof {
            assert(self@ =~= start.remove(pair_id@));
        }
    }

    /// The pairs that are known, in dictionary order.
    pub fn blocked_pairs(&self) -> (r: Vec<String>)
        ensures
            lists_in_order(r@, self@.dom()),
    {
        proof {
            assert(self@.dom() =~= self.pairs@.dom());
        }
        self.pairs.sorted_keys()
    }

    pub fn is_empty(&self) -> (r: bool)
        ensures
            r == (self@.dom() == Set::<Seq<char>>::empty()),
    {
        proof {
            assert(self@.dom() =~= self.pairs@.dom());
            if self.pairs@.dom() == Set::<Seq<char>>::empty() {
                assert(self.pairs@ =~= Map::<Seq<char>, PairState>::empty());
            }
        }
        self.pairs.is_empty()
    }

    /// The hour in which the pair was last probed.
    pub fn probed_hour(&self, pair_id: &str) -> (r: Option<i64>)
        ensures
            r == (if self@.contains_key(pair_id@) {
                self@[pair_id@].probed_hour
            } else {
                None
            }),
    {
        match self.pairs.get(pair_id) {
            Some(s) => s.probed_hour,
            None => None,
        }
    }

    /// Notes that the pair was probed in an hour, whatever came of it.
    pub fn mark_probe_hour(&mut self, pair_id: &str, hour: i64)
        ensures
            final(self)@ == (if old(self)@.contains_key(pair_id@) {
                old(self)@.insert(
                    pair_id@,
                    PairModel { probed_hour: Some(hour), ..old(self)@[pair_id@] },
                )
            } else {
                old(self)@
            }),
    {
        let ghost start = self@;
        if let Some(s) = self.pairs.remove(pair_id) {
            let mut st = s;
            st.probed_hour = Some(hour);
            self.pairs.insert(pair_id, st);
        }
        proof {
            assert(self@ =~= (if start.contains_key(pair_id@) {
                start.insert(pair_id@, PairModel { probed_hour: Some(hour), ..start[pair_id@] })
            } else {
                start
            }));
        }
    }

    pub fn record_probe(&mut self, pair_id: &str, venue: &str, success: bool, now: Instant)
        ensures
            final(self)@ == probed(old(self)@, pair_id@, venue@, success, now),
    {
        let ghost start = self@;
        if let Some(s) = self.pairs.remove(pair_id) {
            if !success {
                let mut st = s;
                st.last_probe = Some(now);
                add_venue(&mut st.failed_venues, venue);
                self.pairs.insert(pair_id, st);
            }
        }
        proof {
            assert(self@ =~= probed(start, pair_id@, venue@, success, now));
        }
    }
}

impl Default for ReduceOnlyGuard {
    fn default() -> (r: ReduceOnlyGuard)
        ensures
            r@ == Map::<Seq<char>, PairModel>::empty(),
    {
        ReduceOnlyGuard::new()
    }
}

/// The first error blocks opening, and leaves the other pairs alone.
pub proof fn law_first_error_blocks(
    m: Map<Seq<char>, PairModel>,
    pair: Seq<char>,
    other: Seq<char>,
    venue: Seq<char>,
    reason: Seq<char>,
    closing: bool,
    now: Instant,
)
    requires
        other != pair,
    ensures
        opening_blocked(noted(m, pair, venue, reason, closing, now), pair),
        opening_blocked(noted(m, pair, venue, reason, closing, now), other) == opening_blocked(
            m,
            other,
        ),
        closing_blocked(noted(m, pair, venue, reason, closing, now), other) == closing_blocked(
            m,
            other,
        ),
{
}

/// Closing once blocked stays blocked whatever errors follow, and the time of
/// the first error stays.
pub proof fn law_blocked_closing_never_downgrades(
    m: Map<Seq<char>, PairModel>,
    pair: Seq<char>,
    venue: Seq<char>,
    reason: Seq<char>,
    closing: bool,
    now: Instant,
)
    requires
        m.contains_key(pair),
    ensures
        closing_blocked(m, pair) ==> closing_blocked(
            noted(m, pair, venue, reason, closing, now),
            pair,
        ),
        noted(m, pair, venue, reason, closing, now)[pair].first_detected
            == m[pair].first_detected,
{
}

/// A probe that works frees the pair; one that fails leaves it blocked; one on a
/// pair that is not blocked changes nothing.
pub proof fn law_probe_decides(
    m: Map<Seq<char>, PairModel>,
    pair: Seq<char>,
    venue: Seq<char>,
    now: Instant,
)
    ensures
        !opening_blocked(probed(m, pair, venue, true, now), pair),
        opening_blocked(probed(m, pair, venue, false, now), pair) == opening_blocked(m, pair),
        !m.contains_key(pair) ==> probed(m, pair, venue, true, now) == m && probed(
            m,
            pair,
            venue,
            false,
            now,
        ) == m,
{
}

} // verus!
