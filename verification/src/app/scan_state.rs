//! Where a scan stands from its start to its end.

use crate::app::burst::later;
use crate::app::candidates::{
    all_parts, candidate_cap, candidate_limit, filled_up, first, has_slot, merge_coarse_refresh,
    passing, retained, select_candidates, Candidate, PairParts,
};
use crate::app::control::ArbitrageControl;
use crate::app::runtime::scan_stopped;
use crate::app::scan::{
    filled_in, CoinSample, Samples, ScanEngine, ScanModel, ScanPhase, ScanRow, SlotSample,
    COARSE_PROBE_BATCH, COARSE_PROBE_WAIT_SECS,
};
use crate::app::scan_loop::{
    candidates_seen, coarse_cfg, coarse_of, coin_windows, coins_seen, next_probe_batch,
    phase_after, replaces, retain_topn_keys, retained_slots, same_slots, sample_candidates,
    sample_venues, scan_keep_venue_coins,
};
use crate::clock::{secs, Duration, Instant};
use crate::config::{copy_texts, AppConfig};
use crate::decimal::ArithError;
use crate::domain::book::BookMap;
use crate::domain::symbol::Pair;
use crate::keymap::{KeyMap, KeySet};
use crate::ranking::ranked;
use vstd::prelude::*;

verus! {

/// Why a scan cannot start.
#[derive(Clone, Copy, Debug, PartialEq, Eq, Structural)]
pub enum ScanError {
    /// Fewer than two venues were chosen.
    TooFewVenues,
    /// Fewer than two venues say what was traded.
    TooFewVolumes,
}

#[derive(Debug)]
pub struct ScanState {
    pub phase: ScanPhase,
    pub error: Option<String>,
    /// The pairs that are scanned.
    pub universe: Vec<Pair>,
    /// Those that came through the first sift.
    pub candidates: Vec<Pair>,
    pub venues: Vec<String>,
    /// Pairs without a book, which are looked at in batches.
    pub probe_queue: Vec<Pair>,
    /// When the present batch has been looked at long enough.
    pub probe_until: Option<Instant>,
    pub last_coarse_at: Option<Instant>,
}

/// Nothing is scanned and nothing is being looked at.
pub open spec fn is_bare(s: ScanState) -> bool {
    &&& s.universe@.len() == 0
    &&& s.candidates@.len() == 0
    &&& s.probe_queue@.len() == 0
    &&& s.probe_until is None
}

/// Every window was dropped.
pub open spec fn emptied(m: ScanModel) -> ScanModel {
    ScanModel {
        slots: Map::<Seq<char>, Samples<SlotSample>>::empty(),
        coins: Map::<Seq<char>, Samples<CoinSample>>::empty(),
        ..m
    }
}

/// The windows after a tick: those of the pairs, then those of the coins on every
/// venue.
pub open spec fn sampled(
    s: ScanState,
    m: ScanModel,
    books: BookMap,
    freshness_ms: int,
    now_ms: int,
    now: Instant,
) -> Result<ScanModel, ArithError> {
    match candidates_seen(m, s.candidates@, books, freshness_ms, now_ms, now) {
        Err(e) => Err(e),
        Ok(n) => coins_seen(n, s.candidates@, s.venues@, books, freshness_ms, now_ms, now),
    }
}

/// The slots of pairs.
pub open spec fn slots_of(s: Seq<Pair>) -> Set<Seq<char>> {
    Set::new(|k: Seq<char>| has_slot(all_parts(s), k))
}

/// `merged` are the candidates after another sift took in `next`: what is worth
/// keeping stays, and the rest is filled up.
pub open spec fn joins(
    merged: Seq<Pair>,
    next: Seq<Pair>,
    candidates: Seq<Pair>,
    keep: Set<Seq<char>>,
    cap: int,
) -> bool {
    all_parts(merged) == filled_up(retained(candidates, keep, cap), next, cap)
}

/// The candidates become `merged`, unless they are the same or there would be none.
pub open spec fn becomes(now: Seq<Pair>, merged: Seq<Pair>) -> bool {
    !(merged.len() == 0 && now.len() > 0) && !same_slots(merged, now)
}

/// The slots of candidates, as keys.
fn slot_keys(candidates: &Vec<Pair>) -> (r: KeySet)
    ensures
        r@.dom() == slots_of(candidates@),
{
    let mut out: KeySet = KeyMap::new();
    let mut i: usize = 0;
    proof {
        assert(out@.dom() =~= slots_of(candidates@.take(0)));
    }
    while i < candidates.len()
        invariant
            i <= candidates@.len(),
            out@.dom() == slots_of(candidates@.take(i as int)),
        decreases candidates.len() - i,
    {
        let slot = candidates[i].slot_key();
        let ghost before = out@.dom();
        out.insert(slot.as_str(), ());
        proof {
            let a = all_parts(candidates@.take(i as int));
            let b = all_parts(candidates@.take(i + 1));
            assert(b[i as int].slot() == slot@);
            assert forall|k: Seq<char>| has_slot(b, k) == (has_slot(a, k) || k == slot@) by {
                if has_slot(a, k) {
                    let j = choose|j: int| 0 <= j < a.len() && (#[trigger] a[j]).slot() == k;
                    assert(b[j] == a[j]);
                }
                if has_slot(b, k) {
                    let j = choose|j: int| 0 <= j < b.len() && (#[trigger] b[j]).slot() == k;
                    if j < i {
                        assert(a[j] == b[j]);
                    }
                }
            }
            assert(out@.dom() =~= before.insert(slot@));
            assert(out@.dom() =~= slots_of(candidates@.take(i + 1)));
        }
        i = i + 1;
    }
    proof {
        assert(candidates@.take(i as int) =~= candidates@);
    }
    out
}

impl ScanState {
    pub fn new() -> (r: ScanState)
        ensures
            r.phase == ScanPhase::Idle,
            r.error is None,
            is_bare(r),
            r.venues@.len() == 0,
            r.last_coarse_at is None,
    {
        ScanState {
            phase: ScanPhase::Idle,
            error: None,
            universe: Vec::new(),
            candidates: Vec::new(),
            venues: Vec::new(),
            probe_queue: Vec::new(),
            probe_until: None,
            last_coarse_at: None,
        }
    }

    /// Starts over on `venues`. What was sampled goes; what was scanned stays until
    /// it is matched anew.
    pub fn start(&mut self, engine: &mut ScanEngine, venues: &Vec<String>) -> (r: Result<
        (),
        ScanError,
    >)
        ensures
            final(self).phase == ScanPhase::Starting,
            final(self).error is None,
            final(self).universe == old(self).universe,
            final(self).candidates == old(self).candidates,
            final(self).probe_queue@.len() == 0,
            final(self).probe_until is None,
            final(self).last_coarse_at == old(self).last_coarse_at,
            final(engine)@ == emptied(old(engine)@),
            match r {
                Ok(_) => venues@.len() >= 2 && final(self).venues@ == venues@,
                Err(e) => venues@.len() < 2 && e == ScanError::TooFewVenues && final(self).venues
                    == old(self).venues,
            },
    {
        self.phase = ScanPhase::Starting;
        self.error = None;
        engine.clear();
        self.probe_queue = Vec::new();
        self.probe_until = None;
        if venues.len() < 2 {
            return Err(ScanError::TooFewVenues);
        }
        self.venues = copy_texts(venues);
        Ok(())
    }

    /// Takes the pairs that were matched on the venues that say what was traded.
    pub fn matched(&mut self, kept_venues: usize, universe: Vec<Pair>) -> (r: Result<
        (),
        ScanError,
    >)
        ensures
            match r {
                Ok(_) => kept_venues >= 2 && *final(self) == (ScanState {
                    phase: ScanPhase::Coarse,
                    universe,
                    ..*old(self)
                }),
                Err(e) => kept_venues < 2 && e == ScanError::TooFewVolumes
                    && final(self).universe@.len() == 0 && final(self).candidates@.len() == 0
                    && *final(self) == (ScanState {
                    universe: final(self).universe,
                    candidates: final(self).candidates,
                    ..*old(self)
                }),
            },
    {
        if kept_venues < 2 {
            self.universe = Vec::new();
            self.candidates = Vec::new();
            return Err(ScanError::TooFewVolumes);
        }
        self.universe = universe;
        self.phase = ScanPhase::Coarse;
        Ok(())
    }

    /// The next pairs to look at, for a while. None are left where it is empty.
    pub fn probe(&mut self, now: Instant) -> (r: Vec<Pair>)
        ensures
            ({
                let all = old(self).probe_queue@;
                let n = if COARSE_PROBE_BATCH < all.len() {
                    COARSE_PROBE_BATCH as int
                } else {
                    all.len() as int
                };
                &&& r@ == all.take(n)
                &&& final(self).probe_queue@ == all.skip(n)
                &&& final(self).probe_until == (if all.len() == 0 {
                    old(self).probe_until
                } else {
                    Some(
                        later(
                            now,
                            Duration { nanos: secs(COARSE_PROBE_WAIT_SECS as int) as u128 },
                        ),
                    )
                })
                &&& final(self).phase == old(self).phase
                &&& final(self).universe == old(self).universe
                &&& final(self).candidates == old(self).candidates
                &&& final(self).venues == old(self).venues
                &&& final(self).error == old(self).error
                &&& final(self).last_coarse_at == old(self).last_coarse_at
            }),
    {
        let empty = self.probe_queue.len() == 0;
        let batch = next_probe_batch(&mut self.probe_queue);
        if !empty {
            self.probe_until = Some(now.after(Duration::from_secs(COARSE_PROBE_WAIT_SECS)));
        }
        batch
    }

    /// The present batch has been looked at long enough.
    pub fn probe_is_over(&self, now: Instant) -> (r: bool)
        ensures
            r == (match self.probe_until {
                Some(t) => now.nanos >= t.nanos,
                None => false,
            }),
    {
        match self.probe_until {
            Some(t) => now.nanos >= t.nanos,
            None => false,
        }
    }

    /// The first sift is done: its pairs are sampled from now on.
    pub fn coarse_done(&mut self, candidates: Vec<Pair>, now: Instant)
        ensures
            final(self).candidates == candidates,
            final(self).probe_queue@.len() == 0,
            final(self).probe_until is None,
            final(self).last_coarse_at == Some(now),
            final(self).phase == (if candidates@.len() == 0 {
                ScanPhase::Live
            } else {
                ScanPhase::Sampling
            }),
            final(self).universe == old(self).universe,
            final(self).venues == old(self).venues,
            final(self).error == old(self).error,
    {
        self.probe_queue = Vec::new();
        self.probe_until = None;
        self.phase = if candidates.len() == 0 {
            ScanPhase::Live
        } else {
            ScanPhase::Sampling
        };
        self.candidates = candidates;
        self.last_coarse_at = Some(now);
    }

    /// Samples the books: the scan is live once a window is full or there is nothing to
    /// sample.
    pub fn sample(
        &mut self,
        engine: &mut ScanEngine,
        books: &BookMap,
        freshness_ms: u64,
        now_ms: u64,
        now: Instant,
    ) -> (r: Result<(), ArithError>)
        ensures
            match sampled(
                *old(self),
                old(engine)@,
                *books,
                freshness_ms as int,
                now_ms as int,
                now,
            ) {
                Err(_) => r is Err && *final(self) == *old(self),
                Ok(m) => r is Ok && final(engine)@ == m && *final(self) == (ScanState {
                    phase: if filled_in(m, old(self).candidates@) > 0
                        || old(self).candidates@.len() == 0 {
                        ScanPhase::Live
                    } else {
                        ScanPhase::Sampling
                    },
                    ..*old(self)
                }),
            },
    {
        sample_candidates(engine, &self.candidates, books, freshness_ms, now_ms, now)?;
        sample_venues(engine, &self.candidates, &self.venues, books, freshness_ms, now_ms, now)?;
        let filled = engine.filled_n(self.candidates.as_slice());
        self.phase = phase_after(filled, self.candidates.len() > 0);
        Ok(())
    }

    /// Chooses the candidates anew. `rows` is the table as it stands. Where they
    /// changed, the windows of those that are gone go too, and the books have to be
    /// subscribed to anew.
    pub fn refresh(
        &mut self,
        engine: &mut ScanEngine,
        cfg: &AppConfig,
        rows: &Vec<ScanRow>,
        books: &BookMap,
        now: Instant,
    ) -> (r: Result<bool, ArithError>)
        ensures
            ({
                let s = *old(self);
                let m = old(engine)@;
                let coarse = coarse_of(*cfg, true);
                let cap = candidate_limit(
                    cfg.scan.watch_top as int,
                    cfg.scan.candidate_cap as int,
                );
                match (
                    passing(s.universe@, *books, coarse, now),
                    retained_slots(m, rows@, s.candidates@, *books, coarse, now),
                ) {
                    (Ok(found), Ok(keep)) => exists|next: Seq<Pair>, merged: Seq<Pair>|
                        {
                            &&& #[trigger] joins(merged, next, s.candidates@, keep, cap)
                            &&& all_parts(next) == first(ranked(found), cap).map_values(
                                |c: Candidate|
                                    PairParts { pair_id: c.pair_id, left: c.left, right: c.right },
                            )
                            &&& r == Ok::<bool, ArithError>(becomes(s.candidates@, merged))
                            &&& *final(self) == (ScanState {
                                candidates: final(self).candidates,
                                last_coarse_at: Some(now),
                                ..s
                            })
                            &&& if becomes(s.candidates@, merged) {
                                &&& final(self).candidates@ == merged
                                &&& final(engine)@ == (ScanModel {
                                    slots: m.slots.restrict(slots_of(merged)),
                                    coins: m.coins.restrict(coin_windows(merged, s.venues@)),
                                    ..m
                                })
                            } else {
                                &&& final(self).candidates == s.candidates
                                &&& final(engine)@ == m
                            }
                        },
                    _ => r is Err && *final(self) == s && final(engine)@ == m,
                }
            }),
    {
        let cap = candidate_cap(cfg.scan.watch_top, cfg.scan.candidate_cap);
        let coarse = coarse_cfg(cfg, true);
        let next = select_candidates(self.universe.as_slice(), books, &coarse, cap, now)?;
        let keep = retain_topn_keys(engine, rows, &self.candidates, books, &coarse, now)?;
        let ghost next_seq = next@;
        let merged = merge_coarse_refresh(self.candidates.as_slice(), next, &keep, cap);
        let ghost merged_seq = merged@;
        let changed = replaces(&self.candidates, &merged);
        if changed {
            let slots = slot_keys(&merged);
            let coins = scan_keep_venue_coins(&merged, &self.venues);
            engine.drop_except(&slots, &coins);
            self.candidates = merged;
        }
        self.last_coarse_at = Some(now);
        proof {
            assert(joins(
                merged_seq,
                next_seq,
                old(self).candidates@,
                keep@.dom(),
                cap as int,
            ));
        }
        Ok(changed)
    }

    /// The scan failed: it is switched off, and the page is told why.
    pub fn fail(
        &mut self,
        engine: &mut ScanEngine,
        control: Option<&mut ArbitrageControl>,
        err: &str,
    )
        ensures
            is_bare(*final(self)),
            final(self).phase == ScanPhase::Error,
            final(self).error matches Some(t) && t@ == err@,
            final(self).venues == old(self).venues,
            final(self).last_coarse_at == old(self).last_coarse_at,
            final(engine)@ == emptied(old(engine)@),
            control matches Some(c) ==> *final(c) == scan_stopped(*c),
    {
        self.universe = Vec::new();
        self.candidates = Vec::new();
        engine.clear();
        self.probe_queue = Vec::new();
        self.probe_until = None;
        self.phase = ScanPhase::Error;
        self.error = Some(err.to_owned());
        if let Some(c) = control {
            c.stop_scan();
        }
    }

    /// The scan was switched off.
    pub fn stop(&mut self, engine: &mut ScanEngine)
        ensures
            is_bare(*final(self)),
            final(self).phase == ScanPhase::Idle,
            final(self).error is None,
            final(self).venues@.len() == 0,
            final(self).last_coarse_at == old(self).last_coarse_at,
            final(engine)@ == emptied(old(engine)@),
    {
        self.universe = Vec::new();
        self.candidates = Vec::new();
        engine.clear();
        self.probe_queue = Vec::new();
        self.probe_until = None;
        self.phase = ScanPhase::Idle;
        self.error = None;
        self.venues = Vec::new();
    }
}

impl Default for ScanState {
    fn default() -> (r: ScanState)
        ensures
            r.phase == ScanPhase::Idle,
            r.error is None,
            is_bare(r),
            r.venues@.len() == 0,
            r.last_coarse_at is None,
    {
        ScanState::new()
    }
}

} // verus!
