//! The signed step: how far the spread stands off its mean, with hysteresis,
//! one step at a time, and through zero only by way of zero.

use crate::clock::{elapsed, Duration, Instant};
use crate::decimal::{
    adds_exactly, diff, divides_exactly, dmax, dmin, lemma_extremes, lemma_scaled_order,
    lemma_whole_number, lit, quot, subtracts_exactly, sum, value, whole, ArithError, Calc, Decimal,
};
use crate::domain::adjacent::{close_qty, closing_qty};
use crate::domain::grid::{CloseReason, GridParams, Intent};
use crate::domain::symbol::VenueId;
use crate::keymap::KeyMap;
use vstd::prelude::*;

verus! {

#[derive(Clone, Copy, Debug)]
pub struct WindowGridParams {
    pub step: Decimal,
    pub max_step: i32,
    pub hysteresis: Decimal,
    pub persistence: Duration,
    pub persistence_min_hits: u32,
    pub base_qty: Decimal,
    pub split_order_size: Decimal,
    pub min_qty: Decimal,
}

impl WindowGridParams {
    /// The settings of a grid with a hysteresis of at least zero.
    pub fn from_grid(p: &GridParams, hysteresis: Decimal) -> (r: WindowGridParams)
        ensures
            r.step == p.step,
            r.max_step == (if (p.max_segments as i32) < 1 {
                1
            } else {
                p.max_segments as i32
            }),
            r.hysteresis == dmax(hysteresis, lit(0, 0)),
            r.persistence == p.persistence,
            r.persistence_min_hits == p.persistence_min_hits,
            r.base_qty == p.base_qty,
            r.split_order_size == p.split_order_size,
            r.min_qty == p.min_qty,
    {
        let n: i32 = p.max_segments as i32;
        WindowGridParams {
            step: p.step,
            max_step: if n < 1 {
                1
            } else {
                n
            },
            hysteresis: hysteresis.max(Decimal::zero()),
            persistence: p.persistence,
            persistence_min_hits: p.persistence_min_hits,
            base_qty: p.base_qty,
            split_order_size: p.split_order_size,
            min_qty: p.min_qty,
        }
    }

    fn window_hit_count(&self) -> (r: bool)
        ensures
            r == (self.persistence_min_hits > 0),
    {
        self.persistence_min_hits > 0
    }
}

// ---------------------------------------------------------------------------
// Quantities
// ---------------------------------------------------------------------------

/// What one order takes of `delta`: at most the size of an order, but all of it
/// where what is left would be too little to place.
pub open spec fn split_qty(delta: Decimal, split: Decimal, min_qty: Decimal) -> Calc {
    if delta.units() <= 0 {
        Ok(lit(0, 0))
    } else if split.units() <= 0 {
        Ok(delta)
    } else {
        let qty = dmin(delta, split);
        match diff(Ok(delta), Ok(qty)) {
            Ok(tail) => if tail.units() > 0 && tail.units() < min_qty.units() {
                Ok(delta)
            } else {
                Ok(qty)
            },
            Err(e) => Err(e),
        }
    }
}

fn split_order_qty(delta: Decimal, params: &WindowGridParams) -> (r: Calc)
    ensures
        r == split_qty(delta, params.split_order_size, params.min_qty),
{
    if !delta.is_positive() {
        return Ok(Decimal::zero());
    }
    if !params.split_order_size.is_positive() {
        return Ok(delta);
    }
    let qty = delta.min(params.split_order_size);
    let tail = delta.minus(qty)?;
    if tail.is_positive() && tail < params.min_qty {
        return Ok(delta);
    }
    Ok(qty)
}

// ---------------------------------------------------------------------------
// State
// ---------------------------------------------------------------------------

/// What the persistence of a line is measured by.
#[derive(Clone, Copy, Debug, PartialEq, Eq, Structural)]
pub struct PersistCfg {
    pub window: Duration,
    pub min_hits: u32,
}

/// Which line is met.
#[derive(Clone, Copy, Debug, PartialEq, Eq, Structural)]
pub enum PersistKind {
    Plus,
    Minus,
}

/// A line and since when it has been met.
#[derive(Clone, Copy, Debug)]
pub struct Persist {
    pub kind: PersistKind,
    pub since: Instant,
}

/// A line and when it was met.
#[derive(Debug)]
pub struct HitWindow {
    pub kind: PersistKind,
    pub hits: Vec<Instant>,
}

/// The most meetings that are remembered.
pub const MAX_HITS: usize = 64;

/// What the engine remembers.
pub struct GridState {
    pub persist: Map<Seq<char>, Persist>,
    pub hits: Map<Seq<char>, (PersistKind, Seq<Instant>)>,
    pub cfg: Option<PersistCfg>,
}

pub struct WindowGridEngine {
    persist: KeyMap<Persist>,
    hits: KeyMap<HitWindow>,
    persist_cfg: Option<PersistCfg>,
}

pub open spec fn hit_view(m: Map<Seq<char>, HitWindow>) -> Map<
    Seq<char>,
    (PersistKind, Seq<Instant>),
> {
    m.map_values(|h: HitWindow| (h.kind, h.hits@))
}

impl View for WindowGridEngine {
    type V = GridState;

    closed spec fn view(&self) -> GridState {
        GridState {
            persist: self.persist@,
            hits: hit_view(self.hits@),
            cfg: self.persist_cfg,
        }
    }
}

/// Nothing remembered.
pub open spec fn no_state() -> GridState {
    GridState { persist: Map::empty(), hits: Map::empty(), cfg: None }
}

pub open spec fn cfg_of(params: WindowGridParams) -> PersistCfg {
    PersistCfg { window: params.persistence, min_hits: params.persistence_min_hits }
}

/// A change of what persistence is measured by forgets everything.
pub open spec fn synced(m: GridState, params: WindowGridParams) -> GridState {
    if m.cfg == Some(cfg_of(params)) {
        m
    } else {
        GridState { persist: Map::empty(), hits: Map::empty(), cfg: Some(cfg_of(params)) }
    }
}

/// A slot forgotten.
pub open spec fn cleared(m: GridState, slot: Seq<char>) -> GridState {
    GridState { persist: m.persist.remove(slot), hits: m.hits.remove(slot), cfg: m.cfg }
}

/// The meetings that are no longer ago than the window, the older ones being
/// first.
pub open spec fn unexpired(hits: Seq<Instant>, window: Duration, now: Instant) -> Seq<Instant>
    decreases hits.len(),
{
    if hits.len() > 0 && elapsed(now, hits[0]) > window.nanos {
        unexpired(hits.drop_first(), window, now)
    } else {
        hits
    }
}

/// The latest meetings, as many as are remembered.
pub open spec fn latest(hits: Seq<Instant>) -> Seq<Instant> {
    if hits.len() > MAX_HITS {
        hits.skip(hits.len() - MAX_HITS)
    } else {
        hits
    }
}

/// The line was not met: its timer stops, but meetings only age.
pub open spec fn after_miss(
    m: GridState,
    slot: Seq<char>,
    params: WindowGridParams,
    now: Instant,
) -> GridState {
    let s = synced(m, params);
    if params.persistence_min_hits > 0 {
        if s.hits.contains_key(slot) {
            GridState {
                hits: s.hits.insert(
                    slot,
                    (s.hits[slot].0, unexpired(s.hits[slot].1, params.persistence, now)),
                ),
                ..s
            }
        } else {
            s
        }
    } else {
        cleared(s, slot)
    }
}

/// The meetings of a line, this one among them.
pub open spec fn hits_with(
    m: GridState,
    slot: Seq<char>,
    kind: PersistKind,
    window: Duration,
    now: Instant,
) -> Seq<Instant> {
    let known = if m.hits.contains_key(slot) && m.hits[slot].0 == kind {
        m.hits[slot].1
    } else {
        Seq::empty()
    };
    latest(unexpired(known.push(now), window, now))
}

/// The line was met: what is remembered of it then.
pub open spec fn after_meeting(
    m: GridState,
    slot: Seq<char>,
    kind: PersistKind,
    params: WindowGridParams,
    now: Instant,
) -> GridState {
    let s = synced(m, params);
    if params.persistence_min_hits > 0 {
        let same_line = s.hits.contains_key(slot) && s.hits[slot].0 == kind;
        GridState {
            persist: if same_line {
                s.persist
            } else {
                s.persist.remove(slot)
            },
            hits: s.hits.insert(
                slot,
                (kind, hits_with(s, slot, kind, params.persistence, now)),
            ),
            cfg: s.cfg,
        }
    } else if s.persist.contains_key(slot) && s.persist[slot].kind == kind {
        s
    } else {
        GridState { persist: s.persist.insert(slot, Persist { kind, since: now }), ..s }
    }
}

/// The line has been met often or long enough.
pub open spec fn persisted(
    m: GridState,
    slot: Seq<char>,
    kind: PersistKind,
    params: WindowGridParams,
    now: Instant,
) -> bool {
    let s = synced(m, params);
    if params.persistence_min_hits > 0 {
        hits_with(s, slot, kind, params.persistence, now).len() >= params.persistence_min_hits
    } else if s.persist.contains_key(slot) && s.persist[slot].kind == kind {
        elapsed(now, s.persist[slot].since) >= params.persistence.nanos
    } else {
        params.persistence.nanos == 0
    }
}

// ---------------------------------------------------------------------------
// Decisions
// ---------------------------------------------------------------------------

/// How many steps a spread stands off the mean.
pub open spec fn steps_off(s: Decimal, mu: Decimal, step: Decimal) -> Calc {
    quot(diff(Ok(s), Ok(mu)), Ok(step))
}

/// The line up is met, hysteresis taken off.
pub open spec fn wants_plus(k: int, raw: Decimal, params: WindowGridParams) -> Result<
    bool,
    ArithError,
> {
    if k < params.max_step {
        match diff(Ok(lit(k + 1, 0)), Ok(params.hysteresis)) {
            Ok(x) => Ok(raw.units() >= x.units()),
            Err(e) => Err(e),
        }
    } else {
        Ok(false)
    }
}

/// The line down is met, hysteresis added.
pub open spec fn wants_minus(k: int, raw: Decimal, params: WindowGridParams) -> Result<
    bool,
    ArithError,
> {
    if k > -params.max_step {
        match sum(Ok(lit(k - 1, 0)), Ok(params.hysteresis)) {
            Ok(x) => Ok(raw.units() <= x.units()),
            Err(e) => Err(e),
        }
    } else {
        Ok(false)
    }
}

/// The one line that is met; none where both or neither are.
pub open spec fn line_met(
    k: int,
    s_plus: Decimal,
    s_minus: Decimal,
    mu: Decimal,
    params: WindowGridParams,
) -> Result<Option<PersistKind>, ArithError> {
    match (steps_off(s_plus, mu, params.step), steps_off(s_minus, mu, params.step)) {
        (Ok(rp), Ok(rm)) => match (wants_plus(k, rp, params), wants_minus(k, rm, params)) {
            (Ok(p), Ok(m)) => if p && !m {
                Ok(Some(PersistKind::Plus))
            } else if m && !p {
                Ok(Some(PersistKind::Minus))
            } else {
                Ok(None)
            },
            _ => Err(ArithError),
        },
        _ => Err(ArithError),
    }
}

/// The step beyond a line.
pub open spec fn next_step(k: int, kind: PersistKind) -> int {
    match kind {
        PersistKind::Plus => k + 1,
        PersistKind::Minus => k - 1,
    }
}

/// What going from the step `k` over a line asks for: away from zero a step's
/// quantity is opened, toward zero it is closed.
pub open spec fn emitted(
    k: int,
    kind: PersistKind,
    left: VenueId,
    right: VenueId,
    held_qty: Decimal,
    params: WindowGridParams,
) -> Result<Intent, ArithError> {
    match split_qty(params.base_qty, params.split_order_size, params.min_qty) {
        Err(e) => Err(e),
        Ok(one) => {
            let next = next_step(k, kind);
            let opens = match kind {
                PersistKind::Plus => k >= 0,
                PersistKind::Minus => k <= 0,
            };
            if one.units() <= 0 || (params.min_qty.units() > 0 && one.units()
                < params.min_qty.units()) {
                Ok(Intent::Hold)
            } else if opens {
                match kind {
                    PersistKind::Plus => Ok(
                        Intent::Open { qty: one, buy: right, sell: left, grid: next as i32 },
                    ),
                    PersistKind::Minus => Ok(
                        Intent::Open { qty: one, buy: left, sell: right, grid: next as i32 },
                    ),
                }
            } else {
                let qty = closing_qty(next, held_qty, one);
                if qty.units() <= 0 {
                    Ok(Intent::Hold)
                } else {
                    Ok(
                        Intent::Close {
                            qty,
                            grid: next as i32,
                            reason: CloseReason::GridReduce,
                            round_trip_pct: lit(0, 0),
                        },
                    )
                }
            }
        },
    }
}

/// The inputs of one decision.
pub struct Tick {
    pub k: int,
    pub s_plus: Decimal,
    pub s_minus: Decimal,
    pub mu: Decimal,
    pub left: VenueId,
    pub right: VenueId,
    pub held_qty: Decimal,
}

/// The grid is switched on.
pub open spec fn active(params: WindowGridParams) -> bool {
    params.base_qty.units() > 0 && params.step.units() > 0
}

/// What is remembered after a decision.
pub open spec fn state_after(
    m: GridState,
    slot: Seq<char>,
    t: Tick,
    params: WindowGridParams,
    now: Instant,
) -> GridState {
    if !active(params) {
        cleared(m, slot)
    } else {
        match line_met(t.k, t.s_plus, t.s_minus, t.mu, params) {
            Err(e) => m,
            Ok(None) => after_miss(m, slot, params, now),
            Ok(Some(kind)) => after_meeting(m, slot, kind, params, now),
        }
    }
}

/// What is decided.
pub open spec fn decision(
    m: GridState,
    slot: Seq<char>,
    t: Tick,
    params: WindowGridParams,
    now: Instant,
) -> Result<Intent, ArithError> {
    if !active(params) {
        Ok(Intent::Hold)
    } else {
        match line_met(t.k, t.s_plus, t.s_minus, t.mu, params) {
            Err(e) => Err(e),
            Ok(None) => Ok(Intent::Hold),
            Ok(Some(kind)) => if persisted(m, slot, kind, params, now) {
                emitted(t.k, kind, t.left, t.right, t.held_qty, params)
            } else {
                Ok(Intent::Hold)
            },
        }
    }
}

impl WindowGridEngine {
    pub fn new() -> (r: WindowGridEngine)
        ensures
            r@ == no_state(),
    {
        let r = WindowGridEngine {
            persist: KeyMap::new(),
            hits: KeyMap::new(),
            persist_cfg: None,
        };
        proof {
            assert(hit_view(Map::<Seq<char>, HitWindow>::empty()) =~= Map::empty());
        }
        r
    }

    /// `s_plus` and `s_minus` are the spreads that can be traded now, `k` the
    /// present step, `held_qty` what the last step closes.
    pub fn decide(
        &mut self,
        slot: &str,
        k: i32,
        s_plus: Decimal,
        s_minus: Decimal,
        mu: Decimal,
        left: &VenueId,
        right: &VenueId,
        held_qty: Decimal,
        params: &WindowGridParams,
        now: Instant,
    ) -> (r: Result<Intent, ArithError>)
        requires
            params.max_step > i32::MIN,
        ensures
            final(self)@ == state_after(
                old(self)@,
                slot@,
                (Tick { k: k as int, s_plus, s_minus, mu, left: *left, right: *right, held_qty }),
                *params,
                now,
            ),
            r == decision(
                old(self)@,
                slot@,
                (Tick { k: k as int, s_plus, s_minus, mu, left: *left, right: *right, held_qty }),
                *params,
                now,
            ),
    {
        if !params.base_qty.is_positive() || !params.step.is_positive() {
            self.clear(slot);
            return Ok(Intent::Hold);
        }
        let raw_plus = s_plus.minus(mu)?.over(params.step)?;
        let raw_minus = s_minus.minus(mu)?.over(params.step)?;
        let want_plus = if k < params.max_step {
            raw_plus >= Decimal::from_int(k as i64 + 1).minus(params.hysteresis)?
        } else {
            false
        };
        let want_minus = if k > -params.max_step {
            raw_minus <= Decimal::from_int(k as i64 - 1).plus(params.hysteresis)?
        } else {
            false
        };
        let kind = if want_plus && !want_minus {
            PersistKind::Plus
        } else if want_minus && !want_plus {
            PersistKind::Minus
        } else {
            self.persist_fail(slot, params, now);
            return Ok(Intent::Hold);
        };
        if !self.persist_ready(slot, kind, params, now) {
            return Ok(Intent::Hold);
        }
        emit(k, kind, left, right, held_qty, params)
    }

    fn persist_ready(
        &mut self,
        slot: &str,
        kind: PersistKind,
        params: &WindowGridParams,
        now: Instant,
    ) -> (r: bool)
        ensures
            final(self)@ == after_meeting(old(self)@, slot@, kind, *params, now),
            r == persisted(old(self)@, slot@, kind, *params, now),
    {
        self.sync_persist_cfg(params);
        if params.window_hit_count() {
            self.held_hits(slot, kind, params, now)
        } else {
            self.held(slot, kind, params.persistence, now)
        }
    }

    fn sync_persist_cfg(&mut self, params: &WindowGridParams)
        ensures
            final(self)@ == synced(old(self)@, *params),
    {
        let cfg = PersistCfg {
            window: params.persistence,
            min_hits: params.persistence_min_hits,
        };
        let known = match self.persist_cfg {
            Some(c) => c == cfg,
            None => false,
        };
        if !known {
            self.reset_persist();
            self.persist_cfg = Some(cfg);
        }
    }

    fn persist_fail(&mut self, slot: &str, params: &WindowGridParams, now: Instant)
        ensures
            final(self)@ == after_miss(old(self)@, slot@, *params, now),
    {
        self.sync_persist_cfg(params);
        if params.window_hit_count() {
            self.expire_hits(slot, params.persistence, now);
        } else {
            self.clear(slot);
        }
    }

    /// The line has been met without a break for `need`.
    fn held(&mut self, slot: &str, kind: PersistKind, need: Duration, now: Instant) -> (r: bool)
        ensures
            r == (if old(self)@.persist.contains_key(slot@) && old(self)@.persist[slot@].kind
                == kind {
                elapsed(now, old(self)@.persist[slot@].since) >= need.nanos
            } else {
                need.nanos == 0
            }),
            final(self)@ == (if old(self)@.persist.contains_key(slot@)
                && old(self)@.persist[slot@].kind == kind {
                old(self)@
            } else {
                GridState {
                    persist: old(self)@.persist.insert(slot@, Persist { kind, since: now }),
                    ..old(self)@
                }
            }),
    {
        if let Some(p) = self.persist.get(slot) {
            if p.kind == kind {
                return now.since(p.since).nanos >= need.nanos;
            }
        }
        self.persist.insert(slot, Persist { kind, since: now });
        need.nanos == 0
    }

    /// The line has been met often enough within the window.
    fn held_hits(
        &mut self,
        slot: &str,
        kind: PersistKind,
        params: &WindowGridParams,
        now: Instant,
    ) -> (r: bool)
        requires
            params.persistence_min_hits > 0,
            old(self)@.cfg == Some(cfg_of(*params)),
        ensures
            final(self)@ == after_meeting(old(self)@, slot@, kind, *params, now),
            r == persisted(old(self)@, slot@, kind, *params, now),
    {
        let ghost start = self@;
        let taken = self.hits.remove(slot);
        let mut fresh = true;
        let mut list: Vec<Instant> = Vec::new();
        if let Some(w) = taken {
            if w.kind == kind {
                fresh = false;
                list = w.hits;
            }
        }
        if fresh {
            self.persist.remove(slot);
        }
        list.push(now);
        expire_list(&mut list, params.persistence, now);
        while list.len() > MAX_HITS
            invariant
                latest(list@) == latest(
                    unexpired(
                        (if start.hits.contains_key(slot@) && start.hits[slot@].0 == kind {
                            start.hits[slot@].1
                        } else {
                            Seq::empty()
                        }).push(now),
                        params.persistence,
                        now,
                    ),
                ),
            decreases list.len(),
        {
            let ghost before = list@;
            list.remove(0);
            proof {
                assert(latest(list@) =~= latest(before));
            }
        }
        let n = list.len();
        proof {
            assert(list@ =~= hits_with(start, slot@, kind, params.persistence, now));
        }
        self.hits.insert(slot, HitWindow { kind, hits: list });
        proof {
            assert(self@.hits =~= start.hits.insert(
                slot@,
                (kind, hits_with(start, slot@, kind, params.persistence, now)),
            ));
            assert(self@.persist =~= after_meeting(start, slot@, kind, *params, now).persist);
        }
        n as u32 >= params.persistence_min_hits
    }

    fn expire_hits(&mut self, slot: &str, window: Duration, now: Instant)
        ensures
            final(self)@ == (if old(self)@.hits.contains_key(slot@) {
                GridState {
                    hits: old(self)@.hits.insert(
                        slot@,
                        (
                            old(self)@.hits[slot@].0,
                            unexpired(old(self)@.hits[slot@].1, window, now),
                        ),
                    ),
                    ..old(self)@
                }
            } else {
                old(self)@
            }),
    {
        let ghost start = self@;
        match self.hits.remove(slot) {
            Some(w) => {
                let kind = w.kind;
                let mut list = w.hits;
                expire_list(&mut list, window, now);
                self.hits.insert(slot, HitWindow { kind, hits: list });
                proof {
                    assert(self@.hits =~= start.hits.insert(
                        slot@,
                        (start.hits[slot@].0, unexpired(start.hits[slot@].1, window, now)),
                    ));
                }
            },
            None => {
                proof {
                    assert(self@.hits =~= start.hits);
                }
            },
        }
    }

    fn clear(&mut self, slot: &str)
        ensures
            final(self)@ == cleared(old(self)@, slot@),
    {
        let ghost start = self@;
        self.persist.remove(slot);
        self.hits.remove(slot);
        proof {
            assert(self@.hits =~= start.hits.remove(slot@));
        }
    }

    /// Forgets every timer and every meeting.
    pub fn reset_persist(&mut self)
        ensures
            final(self)@ == (GridState {
                persist: Map::empty(),
                hits: Map::empty(),
                cfg: old(self)@.cfg,
            }),
    {
        self.persist.clear();
        self.hits.clear();
        proof {
            assert(self@.hits =~= Map::empty());
        }
    }

    /// Forgets a slot.
    pub fn forget(&mut self, slot: &str)
        ensures
            final(self)@ == cleared(old(self)@, slot@),
    {
        self.clear(slot);
    }
}

impl Default for WindowGridEngine {
    fn default() -> (r: WindowGridEngine)
        ensures
            r@ == no_state(),
    {
        WindowGridEngine::new()
    }
}

/// Drops the meetings that are longer ago than the window.
fn expire_list(hits: &mut Vec<Instant>, window: Duration, now: Instant)
    ensures
        final(hits)@ == unexpired(old(hits)@, window, now),
{
    let ghost goal = unexpired(hits@, window, now);
    while hits.len() > 0 && now.since(hits[0]).nanos > window.nanos
        invariant
            goal == unexpired(hits@, window, now),
        decreases hits.len(),
    {
        let ghost before = hits@;
        hits.remove(0);
        proof {
            assert(hits@ =~= before.drop_first());
        }
    }
}

fn emit(
    k: i32,
    kind: PersistKind,
    left: &VenueId,
    right: &VenueId,
    held_qty: Decimal,
    params: &WindowGridParams,
) -> (r: Result<Intent, ArithError>)
    requires
        kind == PersistKind::Plus ==> k < i32::MAX,
        kind == PersistKind::Minus ==> k > i32::MIN,
    ensures
        r == emitted(k as int, kind, *left, *right, held_qty, *params),
{
    let one = split_order_qty(params.base_qty, params)?;
    if !one.is_positive() {
        return Ok(Intent::Hold);
    }
    if params.min_qty.is_positive() && one < params.min_qty {
        return Ok(Intent::Hold);
    }
    match kind {
        PersistKind::Plus => {
            let next: i32 = k + 1;
            if k >= 0 {
                return Ok(
                    Intent::Open { qty: one, buy: right.clone(), sell: left.clone(), grid: next },
                );
            }
            closed_by(next, held_qty, one)
        },
        PersistKind::Minus => {
            let next: i32 = k - 1;
            if k <= 0 {
                return Ok(
                    Intent::Open { qty: one, buy: left.clone(), sell: right.clone(), grid: next },
                );
            }
            closed_by(next, held_qty, one)
        },
    }
}

fn closed_by(next: i32, held_qty: Decimal, one: Decimal) -> (r: Result<Intent, ArithError>)
    ensures
        r == (if closing_qty(next as int, held_qty, one).units() <= 0 {
            Ok(Intent::Hold)
        } else {
            Ok::<Intent, ArithError>(
                Intent::Close {
                    qty: closing_qty(next as int, held_qty, one),
                    grid: next,
                    reason: CloseReason::GridReduce,
                    round_trip_pct: lit(0, 0),
                },
            )
        }),
{
    let qty = close_qty(next, held_qty, one);
    if !qty.is_positive() {
        return Ok(Intent::Hold);
    }
    Ok(
        Intent::Close {
            qty,
            grid: next,
            reason: CloseReason::GridReduce,
            round_trip_pct: Decimal::zero(),
        },
    )
}

// ---------------------------------------------------------------------------
// Laws
// ---------------------------------------------------------------------------

/// A decision moves the step by one, stays within the cap, opens only away from
/// zero and closes only toward it, so that zero is never crossed.
pub proof fn law_one_step_at_a_time(
    m: GridState,
    slot: Seq<char>,
    t: Tick,
    params: WindowGridParams,
    now: Instant,
)
    requires
        -params.max_step <= t.k <= params.max_step,
    ensures
        decision(m, slot, t, params, now) matches Ok(Intent::Open { qty, buy, sell, grid }) ==> {
            &&& qty.units() > 0
            &&& -params.max_step <= grid <= params.max_step
            &&& (t.k >= 0 && grid == t.k + 1 && buy == t.right && sell == t.left) || (t.k <= 0
                && grid == t.k - 1 && buy == t.left && sell == t.right)
        },
        decision(m, slot, t, params, now) matches Ok(
            Intent::Close { qty, grid, reason, round_trip_pct },
        ) ==> {
            &&& qty.units() > 0
            &&& reason == CloseReason::GridReduce
            &&& (t.k > 0 && grid == t.k - 1) || (t.k < 0 && grid == t.k + 1)
        },
{
}

/// At the cap nothing is opened on that side, and closing is still possible.
pub proof fn law_cap_never_opens(
    m: GridState,
    slot: Seq<char>,
    t: Tick,
    params: WindowGridParams,
    now: Instant,
)
    requires
        params.max_step >= 1,
        t.k == params.max_step || t.k == -params.max_step,
    ensures
        !(decision(m, slot, t, params, now) matches Ok(Intent::Open { qty, buy, sell, grid })),
{
}

/// What a decision on one slot remembers of the others stays as it was, as long
/// as persistence is measured as before.
pub proof fn law_slots_are_independent(
    m: GridState,
    slot: Seq<char>,
    other: Seq<char>,
    t: Tick,
    params: WindowGridParams,
    now: Instant,
)
    requires
        other != slot,
        m.cfg == Some(cfg_of(params)),
    ensures
        ({
            let n = state_after(m, slot, t, params, now);
            &&& n.persist.contains_key(other) <==> m.persist.contains_key(other)
            &&& m.persist.contains_key(other) ==> n.persist[other] == m.persist[other]
            &&& n.hits.contains_key(other) <==> m.hits.contains_key(other)
            &&& m.hits.contains_key(other) ==> n.hits[other] == m.hits[other]
        }),
{
}

/// No more meetings are remembered than the limit.
pub open spec fn bounded(m: GridState) -> bool {
    forall|s: Seq<char>| #[trigger] m.hits.contains_key(s) ==> m.hits[s].1.len() <= MAX_HITS
}

proof fn lemma_unexpired_len(hits: Seq<Instant>, window: Duration, now: Instant)
    ensures
        unexpired(hits, window, now).len() <= hits.len(),
    decreases hits.len(),
{
    if hits.len() > 0 && elapsed(now, hits[0]) > window.nanos {
        lemma_unexpired_len(hits.drop_first(), window, now);
    }
}

/// Every decision keeps the number of remembered meetings within the limit.
pub proof fn law_meetings_stay_bounded(
    m: GridState,
    slot: Seq<char>,
    t: Tick,
    params: WindowGridParams,
    now: Instant,
)
    requires
        bounded(m),
    ensures
        bounded(no_state()),
        bounded(state_after(m, slot, t, params, now)),
{
    let s = synced(m, params);
    if s.hits.contains_key(slot) {
        lemma_unexpired_len(s.hits[slot].1, params.persistence, now);
    }
    assert(bounded(s));
}

/// A slot that was forgotten is decided on as one that was never seen.
pub proof fn law_forgotten_is_new(
    m: GridState,
    slot: Seq<char>,
    kind: PersistKind,
    params: WindowGridParams,
    now: Instant,
)
    requires
        m.cfg == Some(cfg_of(params)),
    ensures
        persisted(cleared(m, slot), slot, kind, params, now) == persisted(
            (GridState { cfg: m.cfg, ..no_state() }),
            slot,
            kind,
            params,
            now,
        ),
{
}

/// How far a spread stands off the mean, and how many steps that is, takes no rounding.
pub open spec fn measured_exactly(s: Decimal, mu: Decimal, step: Decimal) -> bool {
    subtracts_exactly(Ok(s), Ok(mu)) && divides_exactly(diff(Ok(s), Ok(mu)), Ok(step))
}

/// The lines on both sides of the step `k` take no rounding.
pub open spec fn lines_exact(k: int, hysteresis: Decimal) -> bool {
    subtracts_exactly(Ok(lit(k + 1, 0)), Ok(hysteresis)) && adds_exactly(
        Ok(lit(k - 1, 0)),
        Ok(hysteresis),
    )
}

/// What is decided goes by how far the spreads stand off the mean. The line up is met where
/// the spread is above the mean by the next step's widths less the hysteresis, the line down
/// where it is no further above the mean than the step below, the hysteresis added. Where
/// both are met, or neither is, nothing is done; a trade goes over the one line that is met,
/// and with nothing to wait for it goes at once.
pub proof fn law_lines_go_by_the_distance_from_the_mean(
    m: GridState,
    slot: Seq<char>,
    t: Tick,
    params: WindowGridParams,
    now: Instant,
)
    requires
        active(params),
        i32::MIN <= t.k <= i32::MAX,
        measured_exactly(t.s_plus, t.mu, params.step),
        measured_exactly(t.s_minus, t.mu, params.step),
        lines_exact(t.k, params.hysteresis),
    ensures
        ({
            let step = params.step.units();
            let off = params.hysteresis.units();
            let up = t.k < params.max_step && (t.s_plus.units() - t.mu.units()) * whole() >= ((
            t.k + 1) * whole() - off) * step;
            let down = t.k > -params.max_step && (t.s_minus.units() - t.mu.units()) * whole() <= ((
            t.k - 1) * whole() + off) * step;
            let d = decision(m, slot, t, params, now);
            let at_once = params.persistence.nanos == 0 && params.persistence_min_hits == 0
                && params.split_order_size.units() <= 0 && params.min_qty.units()
                <= params.base_qty.units();
            &&& up == down ==> d == Ok::<Intent, ArithError>(Intent::Hold)
            &&& d matches Ok(Intent::Open { qty, buy, sell, grid }) ==> {
                &&& grid == t.k + 1 ==> up && !down
                &&& grid == t.k - 1 ==> down && !up
                &&& grid == t.k + 1 || grid == t.k - 1
            }
            &&& d matches Ok(Intent::Close { qty, grid, reason, round_trip_pct }) ==> {
                &&& grid == t.k + 1 ==> up && !down
                &&& grid == t.k - 1 ==> down && !up
                &&& grid == t.k + 1 || grid == t.k - 1
            }
            &&& at_once && up && !down && t.k >= 0 ==> d == Ok::<Intent, ArithError>(
                Intent::Open {
                    qty: params.base_qty,
                    buy: t.right,
                    sell: t.left,
                    grid: (t.k + 1) as i32,
                },
            )
            &&& at_once && down && !up && t.k <= 0 ==> d == Ok::<Intent, ArithError>(
                Intent::Open {
                    qty: params.base_qty,
                    buy: t.left,
                    sell: t.right,
                    grid: (t.k - 1) as i32,
                },
            )
            &&& at_once && up && !down && t.k < 0 && t.held_qty.units() > 0 ==> (d matches Ok(
                Intent::Close { qty, grid, reason, round_trip_pct },
            ) && grid == t.k + 1 && 0 < qty.units() <= t.held_qty.units())
            &&& at_once && down && !up && t.k > 0 && t.held_qty.units() > 0 ==> (d matches Ok(
                Intent::Close { qty, grid, reason, round_trip_pct },
            ) && grid == t.k - 1 && 0 < qty.units() <= t.held_qty.units())
        }),
{
    let step = params.step.units();
    lemma_whole_number(t.k + 1);
    lemma_whole_number(t.k - 1);
    let rp = value(steps_off(t.s_plus, t.mu, params.step));
    let rm = value(steps_off(t.s_minus, t.mu, params.step));
    lemma_scaled_order((t.k + 1) * whole() - params.hysteresis.units(), rp, step);
    lemma_scaled_order(rm, (t.k - 1) * whole() + params.hysteresis.units(), step);
}

/// Spreads and mean moved by the same amount lead to the same decision and the same memory:
/// only the distance from the mean counts.
pub proof fn law_only_the_distance_counts(
    m: GridState,
    slot: Seq<char>,
    t: Tick,
    u: Tick,
    params: WindowGridParams,
    now: Instant,
)
    requires
        active(params),
        u == (Tick { s_plus: u.s_plus, s_minus: u.s_minus, mu: u.mu, ..t }),
        u.s_plus.units() - t.s_plus.units() == u.mu.units() - t.mu.units(),
        u.s_minus.units() - t.s_minus.units() == u.mu.units() - t.mu.units(),
        measured_exactly(t.s_plus, t.mu, params.step),
        measured_exactly(t.s_minus, t.mu, params.step),
        measured_exactly(u.s_plus, u.mu, params.step),
        measured_exactly(u.s_minus, u.mu, params.step),
    ensures
        decision(m, slot, u, params, now) == decision(m, slot, t, params, now),
        state_after(m, slot, u, params, now) == state_after(m, slot, t, params, now),
{
    let step = params.step.units();
    lemma_scaled_order(
        value(steps_off(t.s_plus, t.mu, params.step)),
        value(steps_off(u.s_plus, u.mu, params.step)),
        step,
    );
    lemma_scaled_order(
        value(steps_off(t.s_minus, t.mu, params.step)),
        value(steps_off(u.s_minus, u.mu, params.step)),
        step,
    );
}

/// Both spreads at the mean with nothing held: nothing is done, as long as the hysteresis
/// is less than a step.
pub proof fn law_nothing_is_done_at_the_mean(
    m: GridState,
    slot: Seq<char>,
    t: Tick,
    params: WindowGridParams,
    now: Instant,
)
    requires
        t.k == 0,
        t.s_plus.units() == t.mu.units(),
        t.s_minus.units() == t.mu.units(),
        params.hysteresis.units() < whole(),
        measured_exactly(t.s_plus, t.mu, params.step),
        measured_exactly(t.s_minus, t.mu, params.step),
        lines_exact(t.k, params.hysteresis),
    ensures
        decision(m, slot, t, params, now) == Ok::<Intent, ArithError>(Intent::Hold),
{
    if active(params) {
        law_lines_go_by_the_distance_from_the_mean(m, slot, t, params, now);
        let step = params.step.units();
        let off = params.hysteresis.units();
        assert(0 * whole() == 0);
        lemma_scaled_order(0, 1 * whole() - off, step);
        lemma_scaled_order(-1 * whole() + off, 0, step);
    }
}

/// One order takes all that is wanted, or the size of an order where more is wanted; what is
/// left for later is nothing or can be placed.
pub proof fn law_orders_leave_no_scraps(delta: Decimal, split: Decimal, min_qty: Decimal)
    requires
        delta.units() > 0,
        split.units() > 0,
        subtracts_exactly(Ok(delta), Ok(dmin(delta, split))),
    ensures
        split_qty(delta, split, min_qty) matches Ok(q) && 0 < q.units() <= delta.units() && {
            &&& q.units() == delta.units() || q.units() == split.units()
            &&& delta.units() <= split.units() || delta.units() - split.units() < min_qty.units()
                ==> q.units() == delta.units()
            &&& delta.units() > split.units() && delta.units() - split.units() >= min_qty.units()
                ==> q.units() == split.units()
        },
{
    lemma_extremes(delta, split);
}

/// Only meetings at the front that are longer ago than the window go; the first that stays
/// is not.
pub proof fn law_old_meetings_go(hits: Seq<Instant>, window: Duration, now: Instant)
    ensures
        ({
            let kept = unexpired(hits, window, now);
            let gone = hits.len() - kept.len();
            &&& 0 <= gone
            &&& kept == hits.skip(gone)
            &&& forall|i: int| 0 <= i < gone ==> elapsed(now, #[trigger] hits[i]) > window.nanos
            &&& kept.len() > 0 ==> elapsed(now, kept[0]) <= window.nanos
        }),
    decreases hits.len(),
{
    if hits.len() > 0 && elapsed(now, hits[0]) > window.nanos {
        let rest = hits.drop_first();
        law_old_meetings_go(rest, window, now);
        let gone = rest.len() - unexpired(rest, window, now).len();
        assert(rest.skip(gone) =~= hits.skip(gone + 1));
        assert forall|i: int| 0 <= i < gone + 1 implies elapsed(now, #[trigger] hits[i])
            > window.nanos by {
            if i > 0 {
                assert(rest[i - 1] == hits[i]);
            }
        }
    } else {
        assert(hits.skip(0) =~= hits);
    }
}

/// A line that is met for the first time starts the clock; met again, it is acted on once
/// the time of persistence has passed since then.
pub proof fn law_the_clock_starts_with_the_first_meeting(
    m: GridState,
    slot: Seq<char>,
    kind: PersistKind,
    params: WindowGridParams,
    first: Instant,
    now: Instant,
)
    requires
        params.persistence_min_hits == 0,
        m.cfg == Some(cfg_of(params)),
        !m.persist.contains_key(slot),
    ensures
        ({
            let n = after_meeting(m, slot, kind, params, first);
            &&& persisted(n, slot, kind, params, now) <==> elapsed(now, first)
                >= params.persistence.nanos
            &&& after_meeting(n, slot, kind, params, now) == n
            &&& !after_miss(n, slot, params, now).persist.contains_key(slot)
        }),
{
}

} // verus!
