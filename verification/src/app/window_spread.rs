//! Sliding windows over spreads: of a pair's middles, and of each venue's own.
//!
//! Time is cut into buckets, and each bucket counts once. The mean of a window
//! is known only once the window is full.

use crate::decimal::{
    adds_exactly, diff, divides_exactly, fits, halves_exactly, lemma_half, lemma_over_count,
    lemma_percent, lemma_scaled_order, lemma_units_between, lemma_whole, lit, percents_exactly,
    prod, quot, some_calc, subtracts_exactly, sum, units_of, value, whole, ArithError, Calc,
    Decimal,
};
use crate::domain::book::Bbo;
use crate::keymap::{lemma_mapped, KeyMap, KeySet};
use std::collections::VecDeque;
use vstd::prelude::*;

verus! {

// ---------------------------------------------------------------------------
// Spreads
// ---------------------------------------------------------------------------

/// The middle of a book; none where it is not above zero.
pub open spec fn middle(b: Bbo) -> Result<Option<Decimal>, ArithError> {
    match quot(sum(Ok(b.bid), Ok(b.ask)), Ok(lit(2, 0))) {
        Ok(m) => if m.units() > 0 {
            Ok(Some(m))
        } else {
            Ok(None)
        },
        Err(e) => Err(e),
    }
}

pub fn mid_of(b: &Bbo) -> (r: Result<Option<Decimal>, ArithError>)
    ensures
        r == middle(*b),
{
    let m = b.bid.plus(b.ask)?.over(Decimal::from_int(2))?;
    if m.is_positive() {
        Ok(Some(m))
    } else {
        Ok(None)
    }
}

/// The mean of two books' middles; none where a middle or it is not above zero.
pub open spec fn mean_middle(left: Bbo, right: Bbo) -> Result<Option<Decimal>, ArithError> {
    match (middle(left), middle(right)) {
        (Err(e), _) => Err(e),
        (Ok(None), _) => Ok(None),
        (Ok(Some(l)), Err(e)) => Err(e),
        (Ok(Some(l)), Ok(None)) => Ok(None),
        (Ok(Some(l)), Ok(Some(r))) => match quot(sum(Ok(l), Ok(r)), Ok(lit(2, 0))) {
            Ok(avg) => if avg.units() > 0 {
                Ok(Some(avg))
            } else {
                Ok(None)
            },
            Err(e) => Err(e),
        },
    }
}

fn mean_mid(left: &Bbo, right: &Bbo) -> (r: Result<Option<Decimal>, ArithError>)
    ensures
        r == mean_middle(*left, *right),
{
    let l = match mid_of(left)? {
        None => {
            return Ok(None);
        },
        Some(m) => m,
    };
    let r = match mid_of(right)? {
        None => {
            return Ok(None);
        },
        Some(m) => m,
    };
    let avg = l.plus(r)?.over(Decimal::from_int(2))?;
    if avg.is_positive() {
        Ok(Some(avg))
    } else {
        Ok(None)
    }
}

/// `num` in percent of the mean of two books' middles.
pub open spec fn pct_of_mean(num: Calc, left: Bbo, right: Bbo) -> Result<
    Option<Decimal>,
    ArithError,
> {
    match mean_middle(left, right) {
        Err(e) => Err(e),
        Ok(None) => Ok(None),
        Ok(Some(avg)) => some_calc(prod(quot(num, Ok(avg)), Ok(lit(100, 0)))),
    }
}

/// The difference of two middles.
pub open spec fn middle_gap(left: Bbo, right: Bbo) -> Calc {
    match (middle(left), middle(right)) {
        (Ok(Some(l)), Ok(Some(r))) => diff(Ok(l), Ok(r)),
        _ => Err(ArithError),
    }
}

/// How far apart the middles of two books are, in percent of their mean.
pub open spec fn mid_spread(left: Bbo, right: Bbo) -> Result<Option<Decimal>, ArithError> {
    pct_of_mean(middle_gap(left, right), left, right)
}

pub fn mid_spread_pct(left: &Bbo, right: &Bbo) -> (r: Result<Option<Decimal>, ArithError>)
    ensures
        r == mid_spread(*left, *right),
{
    let avg = match mean_mid(left, right)? {
        None => {
            return Ok(None);
        },
        Some(a) => a,
    };
    let l = mid_of(left)?;
    let r = mid_of(right)?;
    match (l, r) {
        (Some(l), Some(r)) => {
            let gap = l.minus(r)?;
            Ok(Some(gap.over(avg)?.times(Decimal::from_int(100))?))
        },
        _ => Ok(None),
    }
}

/// The spread that can be traded, in percent of the same mean: selling left at
/// the bid and buying right at the ask, or the other way round.
pub open spec fn exec_spread(left: Bbo, right: Bbo, plus: bool) -> Result<
    Option<Decimal>,
    ArithError,
> {
    let num = if plus {
        diff(Ok(left.bid), Ok(right.ask))
    } else {
        diff(Ok(left.ask), Ok(right.bid))
    };
    pct_of_mean(num, left, right)
}

pub fn exec_spread_pct(left: &Bbo, right: &Bbo, plus: bool) -> (r: Result<
    Option<Decimal>,
    ArithError,
>)
    ensures
        r == exec_spread(*left, *right, plus),
{
    let avg = match mean_mid(left, right)? {
        None => {
            return Ok(None);
        },
        Some(a) => a,
    };
    let num = if plus {
        left.bid.minus(right.ask)?
    } else {
        left.ask.minus(right.bid)?
    };
    Ok(Some(num.over(avg)?.times(Decimal::from_int(100))?))
}

/// A venue's own spread in percent of its middle.
pub open spec fn own_spread_mid(b: Bbo) -> Result<Option<Decimal>, ArithError> {
    match middle(b) {
        Err(e) => Err(e),
        Ok(None) => Ok(None),
        Ok(Some(m)) => some_calc(
            prod(quot(diff(Ok(b.ask), Ok(b.bid)), Ok(m)), Ok(lit(100, 0))),
        ),
    }
}

pub fn own_spread_mid_pct(b: &Bbo) -> (r: Result<Option<Decimal>, ArithError>)
    ensures
        r == own_spread_mid(*b),
{
    match mid_of(b)? {
        None => Ok(None),
        Some(mid) => {
            let gap = b.ask.minus(b.bid)?;
            Ok(Some(gap.over(mid)?.times(Decimal::from_int(100))?))
        },
    }
}

/// The mean of two venues' spreads.
pub open spec fn hub_avg(left: Decimal, right: Decimal) -> Calc {
    quot(sum(Ok(left), Ok(right)), Ok(lit(2, 0)))
}

pub fn pair_spread_hub_avg(left: Decimal, right: Decimal) -> (r: Calc)
    ensures
        r == hub_avg(left, right),
{
    left.plus(right)?.over(Decimal::from_int(2))
}

// ---------------------------------------------------------------------------
// A window
// ---------------------------------------------------------------------------

pub open spec fn at_least_one(n: int) -> int {
    if n < 1 {
        1
    } else {
        n
    }
}

fn plus_calc(a: Calc, b: Decimal) -> (r: Calc)
    ensures
        r == sum(a, Ok(b)),
{
    match a {
        Ok(x) => x.plus(b),
        Err(_) => Err(ArithError),
    }
}

fn minus_calc(a: Calc, b: Decimal) -> (r: Calc)
    ensures
        r == diff(a, Ok(b)),
{
    match a {
        Ok(x) => x.minus(b),
        Err(_) => Err(ArithError),
    }
}

/// Points and their running sum. The sum is an error once it has left the range.
pub struct Points {
    pub buf: Seq<Decimal>,
    pub sum: Calc,
}

/// No points.
pub open spec fn no_points() -> Points {
    Points { buf: Seq::empty(), sum: Ok(lit(0, 0)) }
}

/// The oldest point dropped.
pub open spec fn without_oldest(p: Points) -> Points {
    Points { buf: p.buf.drop_first(), sum: diff(p.sum, Ok(p.buf[0])) }
}

/// A point added, the oldest dropped where there are `cap` already.
pub open spec fn with_point(p: Points, s: Decimal, cap: int) -> Points {
    let q = if p.buf.len() == cap && p.buf.len() > 0 {
        without_oldest(p)
    } else {
        p
    };
    Points { buf: q.buf.push(s), sum: sum(q.sum, Ok(s)) }
}

/// The latest point put in the place of the last.
pub open spec fn with_last(p: Points, s: Decimal) -> Points {
    if p.buf.len() == 0 {
        p
    } else {
        Points {
            buf: p.buf.drop_last().push(s),
            sum: sum(diff(p.sum, Ok(p.buf.last())), Ok(s)),
        }
    }
}

/// The oldest points dropped until at most `cap` are left.
pub open spec fn at_most(p: Points, cap: int) -> Points
    decreases p.buf.len(),
{
    if p.buf.len() > cap && p.buf.len() > 0 {
        at_most(without_oldest(p), cap)
    } else {
        p
    }
}

/// The mean of the points; none before the window is full.
pub open spec fn mean_of(p: Points, cap: int) -> Result<Option<Decimal>, ArithError> {
    if cap == 0 || p.buf.len() < cap {
        Ok(None)
    } else {
        some_calc(quot(p.sum, Ok(lit(p.buf.len() as int, 0))))
    }
}

struct Window {
    buf: VecDeque<Decimal>,
    sum: Calc,
}

impl Window {
    spec fn model(self) -> Points {
        Points { buf: self.buf@, sum: self.sum }
    }

    fn empty() -> (r: Window)
        ensures
            r.model() == no_points(),
    {
        Window { buf: VecDeque::new(), sum: Ok(Decimal::zero()) }
    }

    fn drop_oldest(&mut self)
        requires
            old(self).buf@.len() > 0,
        ensures
            final(self).model() == without_oldest(old(self).model()),
    {
        let ghost start = self.buf@;
        if let Some(x) = self.buf.pop_front() {
            self.sum = minus_calc(self.sum, x);
        }
        proof {
            assert(self.buf@ =~= start.drop_first());
        }
    }

    fn add(&mut self, s: Decimal, cap: usize)
        ensures
            final(self).model() == with_point(old(self).model(), s, cap as int),
    {
        if self.buf.len() == cap && self.buf.len() > 0 {
            self.drop_oldest();
        }
        self.buf.push_back(s);
        self.sum = plus_calc(self.sum, s);
    }

    fn set_last(&mut self, s: Decimal)
        ensures
            final(self).model() == with_last(old(self).model(), s),
    {
        let ghost start = self.buf@;
        match self.buf.pop_back() {
            Some(x) => {
                self.sum = minus_calc(self.sum, x);
                self.buf.push_back(s);
                self.sum = plus_calc(self.sum, s);
                proof {
                    assert(self.buf@ =~= start.drop_last().push(s));
                }
            },
            None => {},
        }
    }

    fn trim(&mut self, cap: usize)
        ensures
            final(self).model() == at_most(old(self).model(), cap as int),
    {
        let ghost goal = at_most(self.model(), cap as int);
        while self.buf.len() > cap
            invariant
                at_most(self.model(), cap as int) == goal,
            decreases self.buf.len(),
        {
            self.drop_oldest();
        }
    }

    fn mean(&self, cap: usize) -> (r: Result<Option<Decimal>, ArithError>)
        ensures
            r == mean_of(self.model(), cap as int),
    {
        if cap == 0 || self.buf.len() < cap {
            return Ok(None);
        }
        match self.sum {
            Ok(s) => Ok(Some(s.over(Decimal::from_u64(self.buf.len() as u64))?)),
            Err(_) => Err(ArithError),
        }
    }
}

// ---------------------------------------------------------------------------
// The windows of the pairs
// ---------------------------------------------------------------------------

/// The window of a slot: its points, the bucket of the last, and the mean that
/// was frozen.
pub struct SlotModel {
    pub points: Points,
    pub bucket: Option<u64>,
    pub frozen: Option<Decimal>,
}

struct SlotWindow {
    window: Window,
    current_bucket: Option<u64>,
    frozen: Option<Decimal>,
}

impl SlotWindow {
    spec fn model(self) -> SlotModel {
        SlotModel {
            points: self.window.model(),
            bucket: self.current_bucket,
            frozen: self.frozen,
        }
    }

    fn empty() -> (r: SlotWindow)
        ensures
            r.model() == no_slot(),
    {
        SlotWindow { window: Window::empty(), current_bucket: None, frozen: None }
    }
}

/// A slot that was not seen.
pub open spec fn no_slot() -> SlotModel {
    SlotModel { points: no_points(), bucket: None, frozen: None }
}

/// A point seen in a bucket: the last of a bucket counts.
pub open spec fn slot_seen(m: SlotModel, bucket: u64, s: Decimal, cap: int) -> SlotModel {
    if m.bucket == Some(bucket) {
        SlotModel { points: with_last(m.points, s), ..m }
    } else {
        SlotModel { points: with_point(m.points, s, cap), bucket: Some(bucket), ..m }
    }
}

/// A slot under other settings: a change of the buckets' length starts a bucket
/// anew.
pub open spec fn slot_reset(m: SlotModel, cap: int, same_interval: bool) -> SlotModel {
    SlotModel {
        points: at_most(m.points, cap),
        bucket: if same_interval {
            m.bucket
        } else {
            None
        },
        frozen: m.frozen,
    }
}

/// The mean to quote by: the frozen one, or that of the window.
pub open spec fn quote_of(m: SlotModel, cap: int) -> Result<Option<Decimal>, ArithError> {
    match m.frozen {
        Some(f) => Ok(Some(f)),
        None => mean_of(m.points, cap),
    }
}

pub struct WindowBook {
    slots: KeyMap<SlotWindow>,
    cap: usize,
    interval_ms: u64,
}

pub struct WindowModel {
    pub slots: Map<Seq<char>, SlotModel>,
    pub cap: int,
    pub interval_ms: int,
}

impl View for WindowBook {
    type V = WindowModel;

    closed spec fn view(&self) -> WindowModel {
        WindowModel {
            slots: self.slots@.map_values(|w: SlotWindow| w.model()),
            cap: self.cap as int,
            interval_ms: self.interval_ms as int,
        }
    }
}

/// A slot, or one that was not seen.
pub open spec fn slot_or_new(m: WindowModel, slot: Seq<char>) -> SlotModel {
    if m.slots.contains_key(slot) {
        m.slots[slot]
    } else {
        no_slot()
    }
}

/// The number of the bucket of a time.
pub open spec fn bucket_of(now_ms: int, interval_ms: int) -> u64 {
    (now_ms / interval_ms) as u64
}

/// The book after a point.
pub open spec fn window_seen(m: WindowModel, slot: Seq<char>, now_ms: int, s: Decimal) -> WindowModel {
    WindowModel {
        slots: m.slots.insert(
            slot,
            slot_seen(slot_or_new(m, slot), bucket_of(now_ms, m.interval_ms), s, m.cap),
        ),
        ..m
    }
}

/// The mean of a slot's window.
pub open spec fn live_of(m: WindowModel, slot: Seq<char>) -> Result<Option<Decimal>, ArithError> {
    if m.slots.contains_key(slot) {
        mean_of(m.slots[slot].points, m.cap)
    } else {
        Ok(None)
    }
}

/// The mean that a slot is quoted by.
pub open spec fn quoted_of(m: WindowModel, slot: Seq<char>) -> Result<
    Option<Decimal>,
    ArithError,
> {
    if m.slots.contains_key(slot) {
        quote_of(m.slots[slot], m.cap)
    } else {
        Ok(None)
    }
}

impl WindowBook {
    #[verifier::type_invariant]
    spec fn well_formed(self) -> bool {
        self.cap >= 1 && self.interval_ms >= 1
    }

    pub fn new(cap: usize, interval_ms: u64) -> (r: WindowBook)
        ensures
            r@.slots == Map::<Seq<char>, SlotModel>::empty(),
            r@.cap == at_least_one(cap as int),
            r@.interval_ms == at_least_one(interval_ms as int),
    {
        let r = WindowBook {
            slots: KeyMap::new(),
            cap: if cap < 1 {
                1
            } else {
                cap
            },
            interval_ms: if interval_ms < 1 {
                1
            } else {
                interval_ms
            },
        };
        proof {
            assert(r@.slots =~= Map::<Seq<char>, SlotModel>::empty());
        }
        r
    }

    pub fn cap(&self) -> (r: usize)
        ensures
            r == self@.cap,
            r >= 1,
    {
        proof {
            use_type_invariant(self);
        }
        self.cap
    }

    /// Sets how many points a window has and how long a bucket is.
    pub fn configure(&mut self, cap: usize, interval_ms: u64)
        ensures
            final(self)@.cap == at_least_one(cap as int),
            final(self)@.interval_ms == at_least_one(interval_ms as int),
            final(self)@.slots == old(self)@.slots.map_values(
                |m: SlotModel|
                    slot_reset(
                        m,
                        at_least_one(cap as int),
                        old(self)@.interval_ms == at_least_one(interval_ms as int),
                    ),
            ),
    {
        proof {
            use_type_invariant(&*self);
        }
        let cap: usize = if cap < 1 {
            1
        } else {
            cap
        };
        let interval_ms: u64 = if interval_ms < 1 {
            1
        } else {
            interval_ms
        };
        let same_interval = self.interval_ms == interval_ms;
        let ghost start = self@;
        let mut slots: KeyMap<SlotWindow> = KeyMap::new();
        std::mem::swap(&mut slots, &mut self.slots);
        let ghost all = slots.list();
        let n = slots.len();
        let mut i: usize = 0;
        while i < n
            invariant
                n == all.len(),
                i <= n,
                slots.list().len() == n,
                forall|k: int| 0 <= k < n ==> (#[trigger] slots.list()[k]).0 == all[k].0,
                forall|k: int|
                    0 <= k < i ==> (#[trigger] slots.list()[k]).1.model() == slot_reset(
                        all[k].1.model(),
                        cap as int,
                        same_interval,
                    ),
                forall|k: int| i <= k < n ==> (#[trigger] slots.list()[k]).1 == all[k].1,
            decreases n - i,
        {
            let mut st = slots.exchange_value(i, SlotWindow::empty());
            if !same_interval {
                st.current_bucket = None;
            }
            st.window.trim(cap);
            slots.exchange_value(i, st);
            i = i + 1;
        }
        self.slots = slots;
        self.interval_ms = interval_ms;
        self.cap = cap;
        proof {
            let f = |w: SlotWindow| w.model();
            let g = |m: SlotModel| slot_reset(m, cap as int, same_interval);
            lemma_mapped(all, slots.list(), f, g);
            assert(self@.slots =~= start.slots.map_values(g));
        }
    }

    /// Takes a point in. The last of a bucket counts; a full window drops its
    /// oldest.
    pub fn observe(&mut self, slot: &str, now_ms: u64, s: Decimal)
        ensures
            final(self)@ == window_seen(old(self)@, slot@, now_ms as int, s),
    {
        proof {
            use_type_invariant(&*self);
        }
        let ghost start = self@;
        let bucket: u64 = now_ms / self.interval_ms;
        let cap = self.cap;
        let mut slots: KeyMap<SlotWindow> = KeyMap::new();
        std::mem::swap(&mut slots, &mut self.slots);
        let mut st = match slots.remove(slot) {
            Some(w) => w,
            None => SlotWindow::empty(),
        };
        let same_bucket = match st.current_bucket {
            Some(b) => b == bucket,
            None => false,
        };
        if same_bucket {
            st.window.set_last(s);
        } else {
            st.window.add(s, cap);
            st.current_bucket = Some(bucket);
        }
        slots.insert(slot, st);
        self.slots = slots;
        proof {
            assert(self@.slots =~= window_seen(start, slot@, now_ms as int, s).slots);
        }
    }

    /// How many points a slot has.
    pub fn sample_count(&self, slot: &str) -> (r: usize)
        ensures
            r == slot_or_new(self@, slot@).points.buf.len(),
    {
        match self.slots.get(slot) {
            Some(w) => w.window.buf.len(),
            None => 0,
        }
    }

    /// The latest point of a slot.
    pub fn last_s(&self, slot: &str) -> (r: Option<Decimal>)
        ensures
            r == (if slot_or_new(self@, slot@).points.buf.len() > 0 {
                Some(slot_or_new(self@, slot@).points.buf.last())
            } else {
                None
            }),
    {
        match self.slots.get(slot) {
            Some(w) => {
                let n = w.window.buf.len();
                if n > 0 {
                    Some(w.window.buf[n - 1])
                } else {
                    None
                }
            },
            None => None,
        }
    }

    /// The mean of a full window.
    pub fn live_mu(&self, slot: &str) -> (r: Result<Option<Decimal>, ArithError>)
        ensures
            r == live_of(self@, slot@),
    {
        match self.slots.get(slot) {
            Some(w) => w.window.mean(self.cap),
            None => Ok(None),
        }
    }

    /// The frozen mean while there is a position, that of the window otherwise.
    pub fn quote_mu(&self, slot: &str) -> (r: Result<Option<Decimal>, ArithError>)
        ensures
            r == quoted_of(self@, slot@),
    {
        match self.slots.get(slot) {
            Some(w) => match w.frozen {
                Some(f) => Ok(Some(f)),
                None => w.window.mean(self.cap),
            },
            None => Ok(None),
        }
    }

    /// Forgets the slots that are not in `keep`.
    pub fn drop_except(&mut self, keep: &KeySet)
        ensures
            final(self)@.slots == old(self)@.slots.restrict(keep@.dom()),
            final(self)@.cap == old(self)@.cap,
            final(self)@.interval_ms == old(self)@.interval_ms,
    {
        let ghost start = self@;
        proof {
            use_type_invariant(&*self);
        }
        let mut slots: KeyMap<SlotWindow> = KeyMap::new();
        std::mem::swap(&mut slots, &mut self.slots);
        slots.retain(keep);
        self.slots = slots;
        proof {
            assert(self@.slots =~= start.slots.restrict(keep@.dom()));
        }
    }

    pub fn drop_slot(&mut self, slot: &str)
        ensures
            final(self)@ == (WindowModel {
                slots: old(self)@.slots.remove(slot@),
                ..old(self)@
            }),
    {
        let ghost start = self@;
        proof {
            use_type_invariant(&*self);
        }
        let mut slots: KeyMap<SlotWindow> = KeyMap::new();
        std::mem::swap(&mut slots, &mut self.slots);
        slots.remove(slot);
        self.slots = slots;
        proof {
            assert(self@.slots =~= start.slots.remove(slot@));
        }
    }

    pub fn is_frozen(&self, slot: &str) -> (r: bool)
        ensures
            r == slot_or_new(self@, slot@).frozen is Some,
    {
        match self.slots.get(slot) {
            Some(w) => w.frozen.is_some(),
            None => false,
        }
    }

    /// Freezes the mean of a slot when its position is opened. One that is frozen
    /// stays.
    pub fn freeze(&mut self, slot: &str) -> (r: Result<(), ArithError>)
        ensures
            r is Err <==> old(self)@.slots.contains_key(slot@)
                && old(self)@.slots[slot@].frozen is None && live_of(old(self)@, slot@) is Err,
            final(self)@ == (if old(self)@.slots.contains_key(slot@)
                && old(self)@.slots[slot@].frozen is None && r is Ok {
                WindowModel {
                    slots: old(self)@.slots.insert(
                        slot@,
                        SlotModel {
                            frozen: live_of(old(self)@, slot@)->Ok_0,
                            ..old(self)@.slots[slot@]
                        },
                    ),
                    ..old(self)@
                }
            } else {
                old(self)@
            }),
    {
        let ghost start = self@;
        let live = match self.slots.get(slot) {
            None => {
                return Ok(());
            },
            Some(w) => {
                if w.frozen.is_some() {
                    return Ok(());
                }
                w.window.mean(self.cap)?
            },
        };
        proof {
            use_type_invariant(&*self);
        }
        let mut slots: KeyMap<SlotWindow> = KeyMap::new();
        std::mem::swap(&mut slots, &mut self.slots);
        if let Some(w) = slots.remove(slot) {
            let mut st = w;
            st.frozen = live;
            slots.insert(slot, st);
        }
        self.slots = slots;
        proof {
            assert(self@.slots =~= start.slots.insert(
                slot@,
                SlotModel { frozen: live, ..start.slots[slot@] },
            ));
        }
        Ok(())
    }

    /// The position is closed: the slot is quoted by its window again.
    pub fn unfreeze(&mut self, slot: &str)
        ensures
            final(self)@ == (if old(self)@.slots.contains_key(slot@) {
                WindowModel {
                    slots: old(self)@.slots.insert(
                        slot@,
                        SlotModel { frozen: None, ..old(self)@.slots[slot@] },
                    ),
                    ..old(self)@
                }
            } else {
                old(self)@
            }),
    {
        let ghost start = self@;
        proof {
            use_type_invariant(&*self);
        }
        let mut slots: KeyMap<SlotWindow> = KeyMap::new();
        std::mem::swap(&mut slots, &mut self.slots);
        if let Some(w) = slots.remove(slot) {
            let mut st = w;
            st.frozen = None;
            slots.insert(slot, st);
        }
        self.slots = slots;
        proof {
            assert(self@.slots =~= (if start.slots.contains_key(slot@) {
                start.slots.insert(slot@, SlotModel { frozen: None, ..start.slots[slot@] })
            } else {
                start.slots
            }));
        }
    }
}

impl Default for WindowBook {
    fn default() -> (r: WindowBook)
        ensures
            r@.slots == Map::<Seq<char>, SlotModel>::empty(),
            r@.cap == 10_000,
            r@.interval_ms == 1_000,
    {
        WindowBook::new(10_000, 1_000)
    }
}

// ---------------------------------------------------------------------------
// The windows of the venues
// ---------------------------------------------------------------------------

/// The window of a venue: the points of a bucket are averaged.
pub struct MeanModel {
    pub points: Points,
    pub bucket: Option<u64>,
    pub bucket_sum: Calc,
    pub bucket_n: int,
}

struct MeanSlot {
    window: Window,
    current_bucket: Option<u64>,
    bucket_sum: Calc,
    bucket_n: u64,
}

impl MeanSlot {
    spec fn model(self) -> MeanModel {
        MeanModel {
            points: self.window.model(),
            bucket: self.current_bucket,
            bucket_sum: self.bucket_sum,
            bucket_n: self.bucket_n as int,
        }
    }

    fn empty() -> (r: MeanSlot)
        ensures
            r.model() == no_mean(),
    {
        MeanSlot {
            window: Window::empty(),
            current_bucket: None,
            bucket_sum: Ok(Decimal::zero()),
            bucket_n: 0,
        }
    }
}

/// A venue that was not seen.
pub open spec fn no_mean() -> MeanModel {
    MeanModel { points: no_points(), bucket: None, bucket_sum: Ok(lit(0, 0)), bucket_n: 0 }
}

/// One more, up to what 64 bits hold.
pub open spec fn one_more(n: int) -> int {
    if n < u64::MAX {
        n + 1
    } else {
        n
    }
}

/// The last point made the mean of its bucket, where there is one; a mean out of
/// range makes the sum an error.
pub open spec fn with_mean(p: Points, mean: Calc) -> Points {
    match mean {
        Ok(m) => with_last(p, m),
        Err(e) => Points { buf: p.buf, sum: Err(ArithError) },
    }
}

/// A spread seen in a bucket.
pub open spec fn mean_seen(m: MeanModel, bucket: u64, c: Decimal, cap: int) -> MeanModel {
    if m.bucket == Some(bucket) {
        let total = sum(m.bucket_sum, Ok(c));
        let n = one_more(m.bucket_n);
        MeanModel {
            points: with_mean(m.points, quot(total, Ok(lit(n, 0)))),
            bucket: m.bucket,
            bucket_sum: total,
            bucket_n: n,
        }
    } else {
        MeanModel {
            points: with_point(m.points, c, cap),
            bucket: Some(bucket),
            bucket_sum: Ok(c),
            bucket_n: 1,
        }
    }
}

/// A venue under other settings.
pub open spec fn mean_reset(m: MeanModel, cap: int, same_interval: bool) -> MeanModel {
    let points = at_most(m.points, cap);
    if same_interval {
        MeanModel { points, ..m }
    } else {
        MeanModel { points, bucket: None, bucket_sum: Ok(lit(0, 0)), bucket_n: 0 }
    }
}

/// The venues' own spreads. They are never frozen.
pub struct VenueSpreadBook {
    slots: KeyMap<MeanSlot>,
    cap: usize,
    interval_ms: u64,
}

pub struct VenueSpreadModel {
    pub venues: Map<Seq<char>, MeanModel>,
    pub cap: int,
    pub interval_ms: int,
}

impl View for VenueSpreadBook {
    type V = VenueSpreadModel;

    closed spec fn view(&self) -> VenueSpreadModel {
        VenueSpreadModel {
            venues: self.slots@.map_values(|w: MeanSlot| w.model()),
            cap: self.cap as int,
            interval_ms: self.interval_ms as int,
        }
    }
}

pub open spec fn venue_or_new(m: VenueSpreadModel, venue: Seq<char>) -> MeanModel {
    if m.venues.contains_key(venue) {
        m.venues[venue]
    } else {
        no_mean()
    }
}

/// The book after a spread.
pub open spec fn venue_seen(
    m: VenueSpreadModel,
    venue: Seq<char>,
    now_ms: int,
    c: Decimal,
) -> VenueSpreadModel {
    VenueSpreadModel {
        venues: m.venues.insert(
            venue,
            mean_seen(venue_or_new(m, venue), bucket_of(now_ms, m.interval_ms), c, m.cap),
        ),
        ..m
    }
}

impl VenueSpreadBook {
    #[verifier::type_invariant]
    spec fn well_formed(self) -> bool {
        self.cap >= 1 && self.interval_ms >= 1
    }

    pub fn new(cap: usize, interval_ms: u64) -> (r: VenueSpreadBook)
        ensures
            r@.venues == Map::<Seq<char>, MeanModel>::empty(),
            r@.cap == at_least_one(cap as int),
            r@.interval_ms == at_least_one(interval_ms as int),
    {
        let r = VenueSpreadBook {
            slots: KeyMap::new(),
            cap: if cap < 1 {
                1
            } else {
                cap
            },
            interval_ms: if interval_ms < 1 {
                1
            } else {
                interval_ms
            },
        };
        proof {
            assert(r@.venues =~= Map::<Seq<char>, MeanModel>::empty());
        }
        r
    }

    pub fn cap(&self) -> (r: usize)
        ensures
            r == self@.cap,
            r >= 1,
    {
        proof {
            use_type_invariant(self);
        }
        self.cap
    }

    pub fn configure(&mut self, cap: usize, interval_ms: u64)
        ensures
            final(self)@.cap == at_least_one(cap as int),
            final(self)@.interval_ms == at_least_one(interval_ms as int),
            final(self)@.venues == old(self)@.venues.map_values(
                |m: MeanModel|
                    mean_reset(
                        m,
                        at_least_one(cap as int),
                        old(self)@.interval_ms == at_least_one(interval_ms as int),
                    ),
            ),
    {
        proof {
            use_type_invariant(&*self);
        }
        let cap: usize = if cap < 1 {
            1
        } else {
            cap
        };
        let interval_ms: u64 = if interval_ms < 1 {
            1
        } else {
            interval_ms
        };
        let same_interval = self.interval_ms == interval_ms;
        let ghost start = self@;
        let mut slots: KeyMap<MeanSlot> = KeyMap::new();
        std::mem::swap(&mut slots, &mut self.slots);
        let ghost all = slots.list();
        let n = slots.len();
        let mut i: usize = 0;
        while i < n
            invariant
                n == all.len(),
                i <= n,
                slots.list().len() == n,
                forall|k: int| 0 <= k < n ==> (#[trigger] slots.list()[k]).0 == all[k].0,
                forall|k: int|
                    0 <= k < i ==> (#[trigger] slots.list()[k]).1.model() == mean_reset(
                        all[k].1.model(),
                        cap as int,
                        same_interval,
                    ),
                forall|k: int| i <= k < n ==> (#[trigger] slots.list()[k]).1 == all[k].1,
            decreases n - i,
        {
            let mut st = slots.exchange_value(i, MeanSlot::empty());
            if !same_interval {
                st.current_bucket = None;
                st.bucket_n = 0;
                st.bucket_sum = Ok(Decimal::zero());
            }
            st.window.trim(cap);
            slots.exchange_value(i, st);
            i = i + 1;
        }
        self.slots = slots;
        self.interval_ms = interval_ms;
        self.cap = cap;
        proof {
            let f = |w: MeanSlot| w.model();
            let g = |m: MeanModel| mean_reset(m, cap as int, same_interval);
            lemma_mapped(all, slots.list(), f, g);
            assert(self@.venues =~= start.venues.map_values(g));
        }
    }

    /// Takes a spread in. Those of a bucket are averaged.
    pub fn observe(&mut self, venue: &str, now_ms: u64, c: Decimal)
        ensures
            final(self)@ == venue_seen(old(self)@, venue@, now_ms as int, c),
    {
        proof {
            use_type_invariant(&*self);
        }
        let ghost start = self@;
        let bucket: u64 = now_ms / self.interval_ms;
        let cap = self.cap;
        let mut slots: KeyMap<MeanSlot> = KeyMap::new();
        std::mem::swap(&mut slots, &mut self.slots);
        let mut st = match slots.remove(venue) {
            Some(w) => w,
            None => MeanSlot::empty(),
        };
        let same_bucket = match st.current_bucket {
            Some(b) => b == bucket,
            None => false,
        };
        if same_bucket {
            st.bucket_sum = plus_calc(st.bucket_sum, c);
            if st.bucket_n < u64::MAX {
                st.bucket_n = st.bucket_n + 1;
            }
            let mean = match st.bucket_sum {
                Ok(t) => t.over(Decimal::from_u64(st.bucket_n)),
                Err(_) => Err(ArithError),
            };
            match mean {
                Ok(m) => {
                    st.window.set_last(m);
                },
                Err(_) => {
                    st.window.sum = Err(ArithError);
                },
            }
        } else {
            st.bucket_sum = Ok(c);
            st.bucket_n = 1;
            st.window.add(c, cap);
            st.current_bucket = Some(bucket);
        }
        slots.insert(venue, st);
        self.slots = slots;
        proof {
            assert(self@.venues =~= venue_seen(start, venue@, now_ms as int, c).venues);
        }
    }

    pub fn sample_count(&self, venue: &str) -> (r: usize)
        ensures
            r == venue_or_new(self@, venue@).points.buf.len(),
    {
        match self.slots.get(venue) {
            Some(w) => w.window.buf.len(),
            None => 0,
        }
    }

    /// The mean of a full window.
    pub fn live_mu(&self, venue: &str) -> (r: Result<Option<Decimal>, ArithError>)
        ensures
            r == (if self@.venues.contains_key(venue@) {
                mean_of(self@.venues[venue@].points, self@.cap)
            } else {
                Ok(None)
            }),
    {
        match self.slots.get(venue) {
            Some(w) => w.window.mean(self.cap),
            None => Ok(None),
        }
    }

    /// Forgets the venues that are not in `keep`.
    pub fn drop_except_venues(&mut self, keep: &KeySet)
        ensures
            final(self)@ == (VenueSpreadModel {
                venues: old(self)@.venues.restrict(keep@.dom()),
                ..old(self)@
            }),
    {
        let ghost start = self@;
        proof {
            use_type_invariant(&*self);
        }
        let mut slots: KeyMap<MeanSlot> = KeyMap::new();
        std::mem::swap(&mut slots, &mut self.slots);
        slots.retain(keep);
        self.slots = slots;
        proof {
            assert(self@.venues =~= start.venues.restrict(keep@.dom()));
        }
    }

    pub fn clear(&mut self)
        ensures
            final(self)@ == (VenueSpreadModel {
                venues: Map::<Seq<char>, MeanModel>::empty(),
                ..old(self)@
            }),
    {
        proof {
            use_type_invariant(&*self);
        }
        self.slots = KeyMap::new();
        proof {
            assert(self@.venues =~= Map::<Seq<char>, MeanModel>::empty());
        }
    }
}

// ---------------------------------------------------------------------------
// Laws
// ---------------------------------------------------------------------------

/// No window is longer than it may be.
pub open spec fn within_cap(m: WindowModel) -> bool {
    forall|s: Seq<char>| #[trigger]
        m.slots.contains_key(s) ==> m.slots[s].points.buf.len() <= m.cap
}

proof fn lemma_at_most(p: Points, cap: int)
    requires
        cap >= 0,
    ensures
        at_most(p, cap).buf.len() <= cap,
        p.buf.len() <= cap ==> at_most(p, cap) == p,
        p.buf.len() > cap ==> at_most(p, cap).buf =~= p.buf.skip(p.buf.len() - cap),
    decreases p.buf.len(),
{
    if p.buf.len() > cap && p.buf.len() > 0 {
        lemma_at_most(without_oldest(p), cap);
    }
}

/// Taking a point in keeps every window within its length.
pub proof fn law_window_never_overfull(m: WindowModel, slot: Seq<char>, now_ms: int, s: Decimal)
    requires
        m.cap >= 1,
        within_cap(m),
    ensures
        within_cap(window_seen(m, slot, now_ms, s)),
{
}

/// A window that is shortened keeps its latest points.
pub proof fn law_shortening_keeps_the_latest(m: SlotModel, cap: int, same_interval: bool)
    requires
        cap >= 1,
    ensures
        slot_reset(m, cap, same_interval).points.buf.len() <= cap,
        m.points.buf.len() > cap ==> slot_reset(m, cap, same_interval).points.buf
            == m.points.buf.skip(m.points.buf.len() - cap),
        m.points.buf.len() <= cap ==> slot_reset(m, cap, same_interval).points == m.points,
{
    lemma_at_most(m.points, cap);
}

/// A frozen mean stays while points come in; without one, what is quoted is the
/// mean of the window.
pub proof fn law_frozen_quote_holds(m: WindowModel, slot: Seq<char>, now_ms: int, s: Decimal)
    requires
        m.slots.contains_key(slot),
    ensures
        m.slots[slot].frozen is Some ==> quoted_of(window_seen(m, slot, now_ms, s), slot)
            == quoted_of(m, slot),
        m.slots[slot].frozen is None ==> quoted_of(m, slot) == live_of(m, slot),
{
}

/// Before a window is full there is no mean.
pub proof fn law_no_mean_before_full(m: WindowModel, slot: Seq<char>)
    requires
        slot_or_new(m, slot).points.buf.len() < m.cap,
    ensures
        live_of(m, slot) == Ok::<Option<Decimal>, ArithError>(None),
{
}

/// A point of one slot leaves the others alone.
pub proof fn law_windows_are_independent(
    m: WindowModel,
    slot: Seq<char>,
    other: Seq<char>,
    now_ms: int,
    s: Decimal,
)
    requires
        slot != other,
    ensures
        live_of(window_seen(m, slot, now_ms, s), other) == live_of(m, other),
        quoted_of(window_seen(m, slot, now_ms, s), other) == quoted_of(m, other),
{
}

/// The middle of a book, twice, is its two best prices together.
pub proof fn law_middle_is_half_of_both_prices(b: Bbo)
    requires
        halves_exactly(Ok(b.bid), Ok(b.ask)),
    ensures
        middle(b) is Ok,
        middle(b)->Ok_0 is Some <==> b.bid.units() + b.ask.units() > 0,
        middle(b)->Ok_0 matches Some(m) ==> 2 * m.units() == b.bid.units() + b.ask.units(),
{
    lemma_half(Ok(b.bid), Ok(b.ask));
}

/// The middles of two books and their mean take no rounding.
pub open spec fn middles_exactly(left: Bbo, right: Bbo) -> bool {
    &&& left.bid.units() + left.ask.units() > 0
    &&& right.bid.units() + right.ask.units() > 0
    &&& halves_exactly(Ok(left.bid), Ok(left.ask))
    &&& halves_exactly(Ok(right.bid), Ok(right.ask))
    &&& halves_exactly(
        Ok(middle(left)->Ok_0->0),
        Ok(middle(right)->Ok_0->0),
    )
}

proof fn lemma_mean_middle(left: Bbo, right: Bbo)
    requires
        middles_exactly(left, right),
    ensures
        mean_middle(left, right) is Ok,
        mean_middle(left, right)->Ok_0 is Some,
        mean_middle(left, right)->Ok_0->0.units() > 0,
        4 * mean_middle(left, right)->Ok_0->0.units() == left.bid.units() + left.ask.units()
            + right.bid.units() + right.ask.units(),
{
    law_middle_is_half_of_both_prices(left);
    law_middle_is_half_of_both_prices(right);
    lemma_half(Ok(middle(left)->Ok_0->0), Ok(middle(right)->Ok_0->0));
}

/// A part in percent of the mean of two middles: times the four best prices together it is
/// four hundred times the part.
proof fn lemma_pct_of_mean(num: Calc, left: Bbo, right: Bbo)
    requires
        middles_exactly(left, right),
        num is Ok,
        percents_exactly(num, Ok(mean_middle(left, right)->Ok_0->0)),
    ensures
        pct_of_mean(num, left, right) is Ok,
        pct_of_mean(num, left, right)->Ok_0 is Some,
        pct_of_mean(num, left, right)->Ok_0->0.units() * (left.bid.units() + left.ask.units()
            + right.bid.units() + right.ask.units()) == 400 * value(num) * whole(),
{
    lemma_mean_middle(left, right);
    let avg = mean_middle(left, right)->Ok_0->0;
    lemma_percent(num, Ok(avg));
    let x = value(prod(quot(num, Ok(avg)), Ok(lit(100, 0))));
    let a = avg.units();
    let n = value(num);
    let w = whole();
    assert(x * (4 * a) == 400 * n * w) by (nonlinear_arith)
        requires
            x * a == 100 * n * w,
    ;
}

/// The spread of the middles, times the four best prices together, is two hundred times by
/// how much the left book's prices exceed the right book's.
pub proof fn law_mid_spread_is_left_over_right(left: Bbo, right: Bbo)
    requires
        middles_exactly(left, right),
        subtracts_exactly(Ok(middle(left)->Ok_0->0), Ok(middle(right)->Ok_0->0)),
        percents_exactly(
            diff(Ok(middle(left)->Ok_0->0), Ok(middle(right)->Ok_0->0)),
            Ok(mean_middle(left, right)->Ok_0->0),
        ),
    ensures
        mid_spread(left, right) matches Ok(Some(s)) && s.units() * (left.bid.units()
            + left.ask.units() + right.bid.units() + right.ask.units()) == 200 * (left.bid.units()
            + left.ask.units() - right.bid.units() - right.ask.units()) * whole(),
{
    law_middle_is_half_of_both_prices(left);
    law_middle_is_half_of_both_prices(right);
    lemma_pct_of_mean(middle_gap(left, right), left, right);
    let gap = value(middle_gap(left, right));
    let w = whole();
    let d = left.bid.units() + left.ask.units() - right.bid.units() - right.ask.units();
    assert(400 * gap * w == 200 * d * w) by (nonlinear_arith)
        requires
            2 * gap == d,
    ;
}

/// The spread that can be traded: on the one side what selling left at the bid brings over
/// buying right at the ask, on the other what buying left at the ask costs over selling right
/// at the bid, both in percent of the mean of the middles.
pub proof fn law_tradable_spread_crosses_the_books(left: Bbo, right: Bbo)
    requires
        middles_exactly(left, right),
        subtracts_exactly(Ok(left.bid), Ok(right.ask)),
        subtracts_exactly(Ok(left.ask), Ok(right.bid)),
        percents_exactly(
            diff(Ok(left.bid), Ok(right.ask)),
            Ok(mean_middle(left, right)->Ok_0->0),
        ),
        percents_exactly(
            diff(Ok(left.ask), Ok(right.bid)),
            Ok(mean_middle(left, right)->Ok_0->0),
        ),
    ensures
        ({
            let all = left.bid.units() + left.ask.units() + right.bid.units() + right.ask.units();
            let p = exec_spread(left, right, true);
            let m = exec_spread(left, right, false);
            &&& p is Ok && p->Ok_0 is Some
            &&& m is Ok && m->Ok_0 is Some
            &&& p->Ok_0->0.units() * all == 400 * (left.bid.units() - right.ask.units()) * whole()
            &&& m->Ok_0->0.units() * all == 400 * (left.ask.units() - right.bid.units()) * whole()
            &&& left.sound() && right.sound() ==> p->Ok_0->0.units() < m->Ok_0->0.units()
        }),
{
    lemma_pct_of_mean(diff(Ok(left.bid), Ok(right.ask)), left, right);
    lemma_pct_of_mean(diff(Ok(left.ask), Ok(right.bid)), left, right);
    lemma_whole();
    let all = left.bid.units() + left.ask.units() + right.bid.units() + right.ask.units();
    let p = exec_spread(left, right, true)->Ok_0->0.units();
    let m = exec_spread(left, right, false)->Ok_0->0.units();
    lemma_scaled_order(p, m, all);
    let x = 400 * (left.bid.units() - right.ask.units());
    let y = 400 * (left.ask.units() - right.bid.units());
    lemma_scaled_order(x, y, whole());
}

/// A venue's own spread, times its two best prices together, is two hundred times their
/// distance.
pub proof fn law_own_spread_in_percent_of_the_middle(b: Bbo)
    requires
        b.bid.units() + b.ask.units() > 0,
        halves_exactly(Ok(b.bid), Ok(b.ask)),
        subtracts_exactly(Ok(b.ask), Ok(b.bid)),
        percents_exactly(diff(Ok(b.ask), Ok(b.bid)), Ok(middle(b)->Ok_0->0)),
    ensures
        own_spread_mid(b) matches Ok(Some(s)) && s.units() * (b.bid.units() + b.ask.units()) == 200
            * (b.ask.units() - b.bid.units()) * whole(),
{
    law_middle_is_half_of_both_prices(b);
    let m = middle(b)->Ok_0->0;
    lemma_percent(diff(Ok(b.ask), Ok(b.bid)), Ok(m));
    let x = own_spread_mid(b)->Ok_0->0.units();
    let w = whole();
    let a = m.units();
    let d = b.ask.units() - b.bid.units();
    assert(x * (2 * a) == 200 * d * w) by (nonlinear_arith)
        requires
            x * a == 100 * d * w,
    ;
}

/// The mean of two venues' spreads, twice, is both together.
pub proof fn law_hub_average_is_the_mean(left: Decimal, right: Decimal)
    requires
        halves_exactly(Ok(left), Ok(right)),
    ensures
        hub_avg(left, right) matches Ok(h) && 2 * h.units() == left.units() + right.units(),
{
    lemma_half(Ok(left), Ok(right));
}

/// The running sum is what the points come to.
pub open spec fn sum_holds(p: Points) -> bool {
    p.sum is Ok && value(p.sum) == units_of(p.buf)
}

proof fn lemma_first_apart(s: Seq<Decimal>)
    requires
        s.len() > 0,
    ensures
        units_of(s) == s[0].units() + units_of(s.drop_first()),
    decreases s.len(),
{
    if s.len() > 1 {
        lemma_first_apart(s.drop_last());
        assert(s.drop_first().drop_last() =~= s.drop_last().drop_first());
        assert(s.drop_first().last() == s.last());
    } else {
        assert(s.drop_first() =~= Seq::empty());
        assert(s.drop_last() =~= Seq::empty());
    }
}

proof fn lemma_without_oldest(p: Points)
    requires
        p.buf.len() > 0,
        sum_holds(p),
        subtracts_exactly(p.sum, Ok(p.buf[0])),
    ensures
        sum_holds(without_oldest(p)),
{
    lemma_first_apart(p.buf);
}

/// A point comes behind the others, and where the window is full the oldest goes; the running
/// sum stays what the points come to.
pub proof fn law_a_point_comes_last_and_the_oldest_goes(p: Points, s: Decimal, cap: int)
    requires
        cap >= 1,
        p.buf.len() <= cap,
        sum_holds(p),
        p.buf.len() == cap ==> subtracts_exactly(p.sum, Ok(p.buf[0])),
        adds_exactly(
            if p.buf.len() == cap {
                diff(p.sum, Ok(p.buf[0]))
            } else {
                p.sum
            },
            Ok(s),
        ),
    ensures
        sum_holds(with_point(p, s, cap)),
        with_point(p, s, cap).buf == (if p.buf.len() == cap {
            p.buf.push(s).drop_first()
        } else {
            p.buf.push(s)
        }),
{
    let q = if p.buf.len() == cap {
        lemma_without_oldest(p);
        without_oldest(p)
    } else {
        p
    };
    assert(q.buf.push(s).drop_last() =~= q.buf);
    assert(p.buf.len() > 0 ==> p.buf.drop_first().push(s) =~= p.buf.push(s).drop_first());
}

/// A further point of the same time takes the place of the last; the running sum stays what
/// the points come to.
pub proof fn law_the_last_point_is_replaced(p: Points, s: Decimal)
    requires
        p.buf.len() > 0,
        sum_holds(p),
        subtracts_exactly(p.sum, Ok(p.buf.last())),
        adds_exactly(diff(p.sum, Ok(p.buf.last())), Ok(s)),
    ensures
        sum_holds(with_last(p, s)),
        with_last(p, s).buf == p.buf.update(p.buf.len() - 1, s),
{
    assert(p.buf.drop_last().push(s).drop_last() =~= p.buf.drop_last());
    assert(p.buf.drop_last().push(s) =~= p.buf.update(p.buf.len() - 1, s));
}

/// The mean of a full window, times the number of its points, is what they come to; so it
/// lies between any bounds that all of them keep.
pub proof fn law_window_mean_is_the_mean_of_its_points(p: Points, cap: int, lo: int, hi: int)
    requires
        1 <= cap <= p.buf.len(),
        fits(p.buf.len() as int),
        sum_holds(p),
        divides_exactly(p.sum, Ok(lit(p.buf.len() as int, 0))),
        forall|i: int| 0 <= i < p.buf.len() ==> lo <= (#[trigger] p.buf[i]).units() <= hi,
    ensures
        mean_of(p, cap) matches Ok(Some(m)) && m.units() * p.buf.len() == units_of(p.buf) && lo
            <= m.units() <= hi,
{
    let n = p.buf.len() as int;
    lemma_over_count(p.sum, n);
    lemma_units_between(p.buf, lo, hi);
    let m = mean_of(p, cap)->Ok_0->0.units();
    lemma_scaled_order(lo, m, n);
    lemma_scaled_order(m, hi, n);
}

/// Points of the same bucket count as one, the last of them; a point of another bucket comes
/// behind the others.
pub proof fn law_a_bucket_counts_once(m: SlotModel, bucket: u64, s: Decimal, cap: int)
    requires
        cap >= 1,
        m.points.buf.len() <= cap,
    ensures
        ({
            let n = slot_seen(m, bucket, s, cap);
            &&& n.frozen == m.frozen
            &&& m.bucket == Some(bucket) && m.points.buf.len() > 0 ==> n.points.buf
                == m.points.buf.update(m.points.buf.len() - 1, s) && n.bucket == m.bucket
            &&& m.bucket != Some(bucket) ==> n.bucket == Some(bucket) && n.points.buf.last() == s
                && n.points.buf.len() == (if m.points.buf.len() == cap {
                m.points.buf.len()
            } else {
                m.points.buf.len() + 1
            })
        }),
{
    let b = m.points.buf;
    if m.bucket == Some(bucket) && b.len() > 0 {
        assert(b.drop_last().push(s) =~= b.update(b.len() - 1, s));
    }
}

/// Within a bucket the spreads of a venue are averaged: the last point, times how many there
/// were, is what they come to. Another bucket starts anew.
pub proof fn law_a_bucket_is_averaged(m: MeanModel, bucket: u64, c: Decimal, cap: int)
    requires
        m.bucket == Some(bucket) ==> m.points.buf.len() > 0 && 0 <= m.bucket_n < u64::MAX
            && adds_exactly(m.bucket_sum, Ok(c)) && divides_exactly(
            sum(m.bucket_sum, Ok(c)),
            Ok(lit(m.bucket_n + 1, 0)),
        ),
    ensures
        ({
            let n = mean_seen(m, bucket, c, cap);
            &&& n.bucket == Some(bucket)
            &&& m.bucket == Some(bucket) ==> {
                &&& value(n.bucket_sum) == value(m.bucket_sum) + c.units()
                &&& n.bucket_n == m.bucket_n + 1
                &&& n.points.buf.len() == m.points.buf.len()
                &&& n.points.buf.last().units() * n.bucket_n == value(n.bucket_sum)
                &&& n.points.buf.drop_last() == m.points.buf.drop_last()
            }
            &&& m.bucket != Some(bucket) ==> {
                &&& value(n.bucket_sum) == c.units()
                &&& n.bucket_n == 1
                &&& n.points.buf.last() == c
            }
        }),
{
    if m.bucket == Some(bucket) {
        lemma_over_count(sum(m.bucket_sum, Ok(c)), m.bucket_n + 1);
        let mean = quot(sum(m.bucket_sum, Ok(c)), Ok(lit(m.bucket_n + 1, 0)))->Ok_0;
        assert(m.points.buf.drop_last().push(mean).drop_last() =~= m.points.buf.drop_last());
    }
}

} // verus!
