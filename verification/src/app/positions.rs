//! The positions that are held, and the slots that orders are about to fill.
//!
//! The key is that of a coin on two venues, so that one coin on several pairs of
//! venues makes several positions.

use crate::clock::Instant;
use crate::config::{leverage_of, SizingConfig};
use crate::decimal::{
    adds_exactly, diff, divides, divides_exactly, dmax, finer, lemma_lit, lemma_same_value,
    lemma_scaled_order, lemma_sign, lemma_whole, lit, multiplies, multiplies_exactly, prod, quot,
    subtracts_exactly, sum, takes_away, value, whole, ArithError, Calc, Decimal,
};
use crate::domain::position::Position;
use crate::domain::symbol::VenueId;
use crate::keymap::{KeyMap, KeySet};
use crate::text::same;
use vstd::prelude::*;

verus! {

/// A position, its texts as sequences.
pub struct PosModel {
    pub pair_id: Seq<char>,
    pub buy: Seq<char>,
    pub sell: Seq<char>,
    pub qty: Decimal,
    pub grid: i32,
    pub notional: Decimal,
    pub net_pct: Decimal,
    pub raw_pct: Decimal,
    pub buy_px: Decimal,
    pub sell_px: Decimal,
    pub base_qty: Decimal,
    pub opened_at: Instant,
}

pub open spec fn pos_model(p: Position) -> PosModel {
    PosModel {
        pair_id: p.pair_id@,
        buy: p.buy.0@,
        sell: p.sell.0@,
        qty: p.qty,
        grid: p.grid,
        notional: p.entry_notional_usdc,
        net_pct: p.entry_net_pct,
        raw_pct: p.entry_raw_pct,
        buy_px: p.entry_buy_px,
        sell_px: p.entry_sell_px,
        base_qty: p.base_qty,
        opened_at: p.opened_at,
    }
}

pub struct PositionStore {
    positions: KeyMap<Position>,
    pending_opens: KeySet,
}

/// The positions by slot, and the slots with an order under way.
pub struct StoreModel {
    pub positions: Map<Seq<char>, PosModel>,
    pub pending: Set<Seq<char>>,
}

impl View for PositionStore {
    type V = StoreModel;

    closed spec fn view(&self) -> StoreModel {
        StoreModel {
            positions: self.positions@.map_values(|p: Position| pos_model(p)),
            pending: self.pending_opens@.dom(),
        }
    }
}

/// Something is held on a slot.
pub open spec fn is_open(m: StoreModel, slot: Seq<char>) -> bool {
    m.positions.contains_key(slot) && m.positions[slot].qty.units() > 0
}

/// The slots on which something is held.
pub open spec fn open_slots(m: StoreModel) -> Set<Seq<char>> {
    m.positions.dom().filter(|s: Seq<char>| is_open(m, s))
}

/// The slots that are taken: something is held on them, or an order is under way.
pub open spec fn taken_slots(m: StoreModel) -> Set<Seq<char>> {
    open_slots(m).union(m.pending)
}

/// `slots` names every position once.
pub open spec fn names_all(m: StoreModel, slots: Seq<Seq<char>>) -> bool {
    slots.no_duplicates() && slots.to_set() == m.positions.dom()
}

/// What is held on the named slots, in their order.
pub open spec fn held_list(m: StoreModel, slots: Seq<Seq<char>>) -> Seq<PosModel>
    decreases slots.len(),
{
    if slots.len() == 0 {
        Seq::empty()
    } else {
        let init = held_list(m, slots.drop_last());
        if m.positions[slots.last()].qty.units() > 0 {
            init.push(m.positions[slots.last()])
        } else {
            init
        }
    }
}

// ---------------------------------------------------------------------------
// Opening and closing
// ---------------------------------------------------------------------------

/// The mean of two values by their weights; the later value where the weights
/// come to nothing.
pub open spec fn weighted(v0: Decimal, w0: Decimal, v1: Decimal, w1: Decimal, total: Decimal) -> Calc {
    if total.units() > 0 {
        quot(sum(prod(Ok(v0), Ok(w0)), prod(Ok(v1), Ok(w1))), Ok(total))
    } else {
        Ok(v1)
    }
}

fn weigh(v0: Decimal, w0: Decimal, v1: Decimal, w1: Decimal, total: Decimal) -> (r: Calc)
    ensures
        r == weighted(v0, w0, v1, w1, total),
{
    if total.is_positive() {
        v0.times(w0)?.plus(v1.times(w1)?)?.over(total)
    } else {
        Ok(v1)
    }
}

/// The mean price of two fills; a price that is not known makes it not known.
pub open spec fn mean_price(p0: Decimal, q0: Decimal, p1: Decimal, q1: Decimal, total: Decimal) -> Calc {
    if p0.units() > 0 && p1.units() > 0 {
        weighted(p0, q0, p1, q1, total)
    } else {
        Ok(lit(0, 0))
    }
}

fn price_mean(p0: Decimal, q0: Decimal, p1: Decimal, q1: Decimal, total: Decimal) -> (r: Calc)
    ensures
        r == mean_price(p0, q0, p1, q1, total),
{
    if p0.is_positive() && p1.is_positive() {
        weigh(p0, q0, p1, q1, total)
    } else {
        Ok(Decimal::zero())
    }
}

pub open spec fn steps_from_zero(k: int) -> int {
    if k < 0 {
        -k
    } else {
        k
    }
}

/// The step further from zero, the first of equals.
pub open spec fn deeper(a: i32, b: i32) -> i32 {
    if steps_from_zero(b as int) > steps_from_zero(a as int) {
        b
    } else {
        a
    }
}

fn deeper_step(a: i32, b: i32) -> (r: i32)
    ensures
        r == deeper(a, b),
{
    let x: i64 = if a < 0 {
        -(a as i64)
    } else {
        a as i64
    };
    let y: i64 = if b < 0 {
        -(b as i64)
    } else {
        b as i64
    };
    if y > x {
        b
    } else {
        a
    }
}

/// A position after more of the same was opened: quantities and values add up,
/// earnings are weighed by value, prices by quantity. The time of the first
/// opening stays, and so does the quantity of a step.
pub open spec fn added(prev: PosModel, p: PosModel) -> Result<PosModel, ArithError> {
    let qty = sum(Ok(prev.qty), Ok(p.qty));
    let notional = sum(Ok(prev.notional), Ok(p.notional));
    match (qty, notional) {
        (Ok(q), Ok(n)) => match (
            weighted(prev.net_pct, prev.notional, p.net_pct, p.notional, n),
            weighted(prev.raw_pct, prev.notional, p.raw_pct, p.notional, n),
            mean_price(prev.buy_px, prev.qty, p.buy_px, p.qty, q),
            mean_price(prev.sell_px, prev.qty, p.sell_px, p.qty, q),
        ) {
            (Ok(net_pct), Ok(raw_pct), Ok(buy_px), Ok(sell_px)) => Ok(
                PosModel {
                    qty: q,
                    grid: deeper(p.grid, prev.grid),
                    notional: n,
                    net_pct,
                    raw_pct,
                    buy_px,
                    sell_px,
                    base_qty: prev.base_qty,
                    opened_at: prev.opened_at,
                    ..p
                },
            ),
            _ => Err(ArithError),
        },
        _ => Err(ArithError),
    }
}

/// A fill taken in. Its slot has no order under way any more; a fill of nothing
/// changes nothing else; a fill in the other direction takes the place of what
/// was held.
pub open spec fn opened(m: StoreModel, slot: Seq<char>, p: PosModel) -> Result<
    StoreModel,
    ArithError,
> {
    let pending = m.pending.remove(slot);
    if p.qty.units() <= 0 {
        Ok(StoreModel { pending, ..m })
    } else if is_open(m, slot) && m.positions[slot].buy == p.buy && m.positions[slot].sell
        == p.sell {
        match added(m.positions[slot], p) {
            Ok(q) => Ok(StoreModel { pending, positions: m.positions.insert(slot, q) }),
            Err(e) => Err(e),
        }
    } else {
        Ok(StoreModel { pending, positions: m.positions.insert(slot, p) })
    }
}

/// The value that is left of a position when `qty` of `before` is.
pub open spec fn scaled(notional: Decimal, qty: Decimal, before: Decimal) -> Calc {
    if before.units() > 0 {
        quot(prod(Ok(notional), Ok(qty)), Ok(before))
    } else {
        Ok(notional)
    }
}

fn scale_down(notional: Decimal, qty: Decimal, before: Decimal) -> (r: Calc)
    ensures
        r == scaled(notional, qty, before),
        qty.units() == 0 ==> r is Ok,
{
    broadcast use lemma_lit, lemma_sign;

    proof {
        reveal(multiplies);
        reveal(divides);
    }
    if before.is_positive() {
        notional.times(qty)?.over(before)
    } else {
        Ok(notional)
    }
}

/// A position brought to `qty`, its value with it. One that comes to nothing is
/// gone.
pub open spec fn resized(m: Map<Seq<char>, PosModel>, slot: Seq<char>, qty: Decimal) -> Result<
    Map<Seq<char>, PosModel>,
    ArithError,
> {
    match scaled(m[slot].notional, qty, m[slot].qty) {
        Err(e) => Err(e),
        Ok(notional) => if qty.units() == 0 {
            Ok(m.remove(slot))
        } else {
            Ok(m.insert(slot, PosModel { qty, notional, ..m[slot] }))
        },
    }
}

/// `qty` closed, at most what is held.
pub open spec fn closed(m: StoreModel, slot: Seq<char>, qty: Decimal) -> Result<
    StoreModel,
    ArithError,
> {
    let pending = m.pending.remove(slot);
    if !m.positions.contains_key(slot) {
        Ok(StoreModel { pending, ..m })
    } else {
        match diff(Ok(m.positions[slot].qty), Ok(qty)) {
            Err(e) => Err(e),
            Ok(left) => match resized(m.positions, slot, dmax(left, lit(0, 0))) {
                Ok(positions) => Ok(StoreModel { pending, positions }),
                Err(e) => Err(e),
            },
        }
    }
}

/// Memory holds more than the venues do.
pub open spec fn overstated(m: StoreModel, slot: Seq<char>, exchange_qty: Decimal) -> bool {
    is_open(m, slot) && exchange_qty.units() < m.positions[slot].qty.units()
}

/// The values of the named positions that `pick` takes, summed up behind `acc`.
pub open spec fn total_value(
    m: StoreModel,
    slots: Seq<Seq<char>>,
    pick: spec_fn(PosModel) -> bool,
    acc: Calc,
) -> Calc
    decreases slots.len(),
{
    if slots.len() == 0 {
        acc
    } else {
        let p = m.positions[slots[0]];
        total_value(
            m,
            slots.drop_first(),
            pick,
            if pick(p) && p.qty.units() > 0 {
                sum(acc, Ok(p.notional))
            } else {
                acc
            },
        )
    }
}

proof fn lemma_total_err(m: StoreModel, slots: Seq<Seq<char>>, pick: spec_fn(PosModel) -> bool)
    ensures
        total_value(m, slots, pick, Err(ArithError)) == Err::<Decimal, ArithError>(ArithError),
    decreases slots.len(),
{
    if slots.len() > 0 {
        lemma_total_err(m, slots.drop_first(), pick);
    }
}

/// What a leg of a position binds on a venue: its value over the leverage, which
/// counts at least once.
pub open spec fn leg_margin(notional: Decimal, sizing: SizingConfig, venue: Seq<char>) -> Calc {
    quot(Ok(notional), Ok(dmax(leverage_of(sizing, venue), lit(1, 0))))
}

/// `x` added to what stands under a venue.
pub open spec fn margin_added(
    acc: Result<Map<Seq<char>, Decimal>, ArithError>,
    venue: Seq<char>,
    x: Calc,
) -> Result<Map<Seq<char>, Decimal>, ArithError> {
    match (acc, x) {
        (Ok(m), Ok(d)) => match sum(
            Ok(
                if m.contains_key(venue) {
                    m[venue]
                } else {
                    lit(0, 0)
                },
            ),
            Ok(d),
        ) {
            Ok(t) => Ok(m.insert(venue, t)),
            Err(e) => Err(e),
        },
        _ => Err(ArithError),
    }
}

/// What the named positions bind on each venue, behind `acc`.
pub open spec fn margins(
    m: StoreModel,
    slots: Seq<Seq<char>>,
    sizing: SizingConfig,
    acc: Result<Map<Seq<char>, Decimal>, ArithError>,
) -> Result<Map<Seq<char>, Decimal>, ArithError>
    decreases slots.len(),
{
    if slots.len() == 0 {
        acc
    } else {
        let p = m.positions[slots[0]];
        let next = if p.qty.units() <= 0 || p.notional.units() <= 0 {
            acc
        } else {
            margin_added(
                margin_added(acc, p.buy, leg_margin(p.notional, sizing, p.buy)),
                p.sell,
                leg_margin(p.notional, sizing, p.sell),
            )
        };
        margins(m, slots.drop_first(), sizing, next)
    }
}

proof fn lemma_margins_err(m: StoreModel, slots: Seq<Seq<char>>, sizing: SizingConfig)
    ensures
        margins(m, slots, sizing, Err(ArithError)) is Err,
    decreases slots.len(),
{
    if slots.len() > 0 {
        lemma_margins_err(m, slots.drop_first(), sizing);
    }
}

fn add_margin(map: &mut KeyMap<Decimal>, venue: &str, x: Decimal) -> (r: Result<(), ArithError>)
    ensures
        match r {
            Ok(_) => margin_added(Ok(old(map)@), venue@, Ok(x)) == Ok::<
                Map<Seq<char>, Decimal>,
                ArithError,
            >(final(map)@),
            Err(_) => margin_added(Ok(old(map)@), venue@, Ok(x)) is Err,
        },
{
    let known = match map.get(venue) {
        Some(d) => *d,
        None => Decimal::zero(),
    };
    let t = known.plus(x)?;
    map.insert(venue, t);
    Ok(())
}

/// Taking all of a number away leaves zero.
proof fn lemma_nothing_left(a: Decimal, b: Decimal, r: Calc)
    requires
        a.valid(),
        b.valid(),
        a.units() > 0,
        a.units() == b.units(),
        takes_away(a, b, r),
    ensures
        r is Ok,
        r->Ok_0.units() == 0,
{
    broadcast use lemma_lit, lemma_sign;

    reveal(takes_away);
    lemma_same_value(a, b);
    assert(r == Ok::<Decimal, ArithError>(lit(0, finer(a, b))));
}

impl PositionStore {
    /// The slots in the order in which the store walks them.
    pub closed spec fn order(self) -> Seq<Seq<char>> {
        self.positions.keys()
    }

    pub fn new() -> (r: PositionStore)
        ensures
            r@.positions == Map::<Seq<char>, PosModel>::empty(),
            r@.pending == Set::<Seq<char>>::empty(),
    {
        let r = PositionStore { positions: KeyMap::new(), pending_opens: KeyMap::new() };
        proof {
            assert(r@.positions =~= Map::<Seq<char>, PosModel>::empty());
            assert(r@.pending =~= Set::<Seq<char>>::empty());
        }
        r
    }

    pub fn get(&self, slot: &str) -> (r: Option<&Position>)
        ensures
            match r {
                Some(p) => self@.positions.contains_key(slot@) && pos_model(*p)
                    == self@.positions[slot@],
                None => !self@.positions.contains_key(slot@),
            },
    {
        self.positions.get(slot)
    }

    /// How many positions are held.
    pub fn open_count(&self) -> (r: usize)
        ensures
            r == open_slots(self@).len(),
            open_slots(self@).finite(),
    {
        let n = self.positions.len();
        let ghost ks = self.positions.keys();
        let ghost mut seen: Set<Seq<char>> = Set::empty();
        let mut count: usize = 0;
        let mut i: usize = 0;
        while i < n
            invariant
                ks == self.positions.keys(),
                n == ks.len(),
                ks.no_duplicates(),
                i <= n,
                count <= i,
                seen.finite(),
                seen.len() == count,
                forall|k: Seq<char>| #[trigger]
                    seen.contains(k) <==> is_open(self@, k) && exists|a: int|
                        0 <= a < i && ks[a] == k,
            decreases n - i,
        {
            let ghost before = seen;
            let p = self.positions.value(i);
            if p.qty.is_positive() {
                proof {
                    assert(is_open(self@, ks[i as int]));
                    assert(!seen.contains(ks[i as int]));
                    seen = seen.insert(ks[i as int]);
                }
                count = count + 1;
            }
            proof {
                assert forall|k: Seq<char>| #[trigger]
                    seen.contains(k) <==> is_open(self@, k) && exists|a: int|
                        0 <= a < i + 1 && ks[a] == k by {
                    if exists|a: int| 0 <= a < i + 1 && ks[a] == k {
                        let a = choose|a: int| 0 <= a < i + 1 && ks[a] == k;
                        if a < i {
                            assert(exists|b: int| 0 <= b < i && ks[b] == k);
                        }
                    }
                    if exists|a: int| 0 <= a < i && ks[a] == k {
                        let a = choose|a: int| 0 <= a < i && ks[a] == k;
                        assert(0 <= a < i + 1 && ks[a] == k);
                    }
                    if k == ks[i as int] {
                        assert(0 <= i < i + 1 && ks[i as int] == k);
                    }
                }
            }
            i = i + 1;
        }
        proof {
            assert(seen =~= open_slots(self@)) by {
                assert forall|k: Seq<char>| open_slots(self@).contains(k) implies seen.contains(
                    k,
                ) by {
                    assert(self.positions@.dom().contains(k));
                    assert(ks.to_set().contains(k));
                    let a = choose|a: int| 0 <= a < ks.len() && ks[a] == k;
                    assert(0 <= a < n && ks[a] == k);
                }
            }
        }
        count
    }

    fn taken(&self) -> (r: u128)
        ensures
            r == taken_slots(self@).len(),
    {
        let open = self.open_count();
        let n = self.pending_opens.len();
        let ghost ks = self.pending_opens.keys();
        let ghost all = taken_slots(self@);
        let ghost mut seen: Set<Seq<char>> = open_slots(self@);
        let mut count: u128 = open as u128;
        let mut i: usize = 0;
        proof {
            assert(all.finite());
        }
        while i < n
            invariant
                ks == self.pending_opens.keys(),
                n == ks.len(),
                ks.no_duplicates(),
                self.pending_opens@.dom() == ks.to_set(),
                i <= n,
                all == taken_slots(self@),
                all.finite(),
                count <= open + i,
                seen.finite(),
                seen.len() == count,
                seen.subset_of(all),
                forall|k: Seq<char>| #[trigger]
                    seen.contains(k) <==> open_slots(self@).contains(k) || exists|a: int|
                        0 <= a < i && ks[a] == k,
            decreases n - i,
        {
            let slot = self.pending_opens.key(i);
            let held = match self.positions.get(slot.as_str()) {
                Some(p) => p.qty.is_positive(),
                None => false,
            };
            proof {
                assert(ks.to_set().contains(ks[i as int]));
                assert(self@.pending.contains(ks[i as int]));
                assert(held == open_slots(self@).contains(ks[i as int]));
            }
            if !held {
                proof {
                    assert(!seen.contains(ks[i as int]));
                    seen = seen.insert(ks[i as int]);
                }
                count = count + 1;
            }
            proof {
                assert forall|k: Seq<char>| #[trigger]
                    seen.contains(k) <==> open_slots(self@).contains(k) || exists|a: int|
                        0 <= a < i + 1 && ks[a] == k by {
                    if exists|a: int| 0 <= a < i + 1 && ks[a] == k {
                        let a = choose|a: int| 0 <= a < i + 1 && ks[a] == k;
                        if a < i {
                            assert(exists|b: int| 0 <= b < i && ks[b] == k);
                        }
                    }
                    if exists|a: int| 0 <= a < i && ks[a] == k {
                        let a = choose|a: int| 0 <= a < i && ks[a] == k;
                        assert(0 <= a < i + 1 && ks[a] == k);
                    }
                    if k == ks[i as int] {
                        assert(0 <= i < i + 1 && ks[i as int] == k);
                    }
                }
            }
            i = i + 1;
        }
        proof {
            assert(seen =~= all) by {
                assert forall|k: Seq<char>| self@.pending.contains(k) implies seen.contains(k) by {
                    assert(ks.to_set().contains(k));
                    let a = choose|a: int| 0 <= a < ks.len() && ks[a] == k;
                    assert(0 <= a < n && ks[a] == k);
                }
            }
        }
        count
    }

    /// How many slots are taken, as far as a machine word can say.
    pub fn active_slots(&self) -> (r: usize)
        ensures
            r == (if taken_slots(self@).len() <= usize::MAX {
                taken_slots(self@).len() as int
            } else {
                usize::MAX as int
            }),
    {
        let n = self.taken();
        if n <= usize::MAX as u128 {
            n as usize
        } else {
            usize::MAX
        }
    }

    /// Fewer slots are taken than may be; at least one may.
    pub fn can_open(&self, max_concurrent_pairs: u32) -> (r: bool)
        ensures
            r == (taken_slots(self@).len() < (if max_concurrent_pairs < 1 {
                1
            } else {
                max_concurrent_pairs as int
            })),
    {
        let max: u128 = if max_concurrent_pairs < 1 {
            1
        } else {
            max_concurrent_pairs as u128
        };
        self.taken() < max
    }

    /// An order for a slot is under way.
    pub fn reserve_open(&mut self, slot: &str)
        ensures
            final(self)@ == (StoreModel {
                pending: old(self)@.pending.insert(slot@),
                ..old(self)@
            }),
    {
        let ghost start = self@;
        self.pending_opens.insert(slot, ());
        proof {
            assert(self@.pending =~= start.pending.insert(slot@));
        }
    }

    pub fn release_pending(&mut self, slot: &str)
        ensures
            final(self)@ == (StoreModel {
                pending: old(self)@.pending.remove(slot@),
                ..old(self)@
            }),
    {
        let ghost start = self@;
        self.pending_opens.remove(slot);
        proof {
            assert(self@.pending =~= start.pending.remove(slot@));
        }
    }

    /// What is bound on each venue, each leg counting for its own.
    pub fn reserved_margin_by_venue(&self, sizing: &SizingConfig) -> (r: Result<
        KeyMap<Decimal>,
        ArithError,
    >)
        ensures
            names_all(self@, self.order()),
            match r {
                Ok(map) => margins(self@, self.order(), *sizing, Ok(Map::empty())) == Ok::<
                    Map<Seq<char>, Decimal>,
                    ArithError,
                >(map@),
                Err(_) => margins(self@, self.order(), *sizing, Ok(Map::empty())) is Err,
            },
    {
        let n = self.positions.len();
        let ghost ks = self.order();
        let ghost goal = margins(self@, ks, *sizing, Ok(Map::empty()));
        let mut out: KeyMap<Decimal> = KeyMap::new();
        let mut i: usize = 0;
        proof {
            assert(self@.positions.dom() =~= self.positions@.dom());
            assert(ks.skip(0) =~= ks);
        }
        while i < n
            invariant
                ks == self.order(),
                ks == self.positions.keys(),
                n == ks.len(),
                names_all(self@, ks),
                i <= n,
                goal == margins(self@, ks, *sizing, Ok(Map::empty())),
                goal == margins(self@, ks.skip(i as int), *sizing, Ok(out@)),
            decreases n - i,
        {
            let p = self.positions.value(i);
            proof {
                assert(ks.skip(i as int).drop_first() =~= ks.skip(i + 1));
                assert(pos_model(*p) == self@.positions[ks[i as int]]);
                lemma_margins_err(self@, ks.skip(i + 1), *sizing);
            }
            if p.qty.is_positive() && p.entry_notional_usdc.is_positive() {
                let buy_leverage = sizing.leverage_for(p.buy.as_str()).max(Decimal::one());
                let sell_leverage = sizing.leverage_for(p.sell.as_str()).max(Decimal::one());
                let buy_margin = p.entry_notional_usdc.over(buy_leverage)?;
                let sell_margin = p.entry_notional_usdc.over(sell_leverage)?;
                add_margin(&mut out, p.buy.as_str(), buy_margin)?;
                add_margin(&mut out, p.sell.as_str(), sell_margin)?;
            }
            i = i + 1;
        }
        Ok(out)
    }

    /// Takes a fill in.
    pub fn record_open(
        &mut self,
        slot: &str,
        pair_id: &str,
        buy: VenueId,
        sell: VenueId,
        qty: Decimal,
        grid: i32,
        entry_notional_usdc: Decimal,
        entry_net_pct: Decimal,
        entry_raw_pct: Decimal,
        base_qty: Decimal,
        buy_px: Decimal,
        sell_px: Decimal,
        now: Instant,
    ) -> (r: Result<(), ArithError>)
        ensures
            ({
                let p = PosModel {
                    pair_id: pair_id@,
                    buy: buy.0@,
                    sell: sell.0@,
                    qty,
                    grid,
                    notional: entry_notional_usdc,
                    net_pct: entry_net_pct,
                    raw_pct: entry_raw_pct,
                    buy_px,
                    sell_px,
                    base_qty,
                    opened_at: now,
                };
                match r {
                    Ok(_) => opened(old(self)@, slot@, p) == Ok::<StoreModel, ArithError>(
                        final(self)@,
                    ),
                    Err(_) => opened(old(self)@, slot@, p) is Err && final(self)@ == old(self)@,
                }
            }),
    {
        let ghost start = self@;
        let mut p = Position {
            pair_id: pair_id.to_owned(),
            buy,
            sell,
            qty,
            grid,
            entry_notional_usdc,
            entry_net_pct,
            entry_raw_pct,
            entry_buy_px: buy_px,
            entry_sell_px: sell_px,
            base_qty,
            opened_at: now,
        };
        if !qty.is_positive() {
            self.release_pending(slot);
            return Ok(());
        }
        if let Some(prev) = self.positions.get(slot) {
            if prev.qty.is_positive() && prev.buy == p.buy && prev.sell == p.sell {
                let total_qty = prev.qty.plus(qty)?;
                let total_notional = prev.entry_notional_usdc.plus(entry_notional_usdc)?;
                let net = weigh(
                    prev.entry_net_pct,
                    prev.entry_notional_usdc,
                    entry_net_pct,
                    entry_notional_usdc,
                    total_notional,
                )?;
                let raw = weigh(
                    prev.entry_raw_pct,
                    prev.entry_notional_usdc,
                    entry_raw_pct,
                    entry_notional_usdc,
                    total_notional,
                )?;
                let bpx = price_mean(prev.entry_buy_px, prev.qty, buy_px, qty, total_qty)?;
                let spx = price_mean(prev.entry_sell_px, prev.qty, sell_px, qty, total_qty)?;
                p.qty = total_qty;
                p.grid = deeper_step(grid, prev.grid);
                p.entry_notional_usdc = total_notional;
                p.entry_net_pct = net;
                p.entry_raw_pct = raw;
                p.entry_buy_px = bpx;
                p.entry_sell_px = spx;
                p.base_qty = prev.base_qty;
                p.opened_at = prev.opened_at;
            }
        }
        self.release_pending(slot);
        let ghost m = pos_model(p);
        self.positions.insert(slot, p);
        proof {
            assert(self@.positions =~= start.positions.insert(slot@, m));
        }
        Ok(())
    }

    /// Takes the close of `qty` in.
    pub fn record_close(&mut self, slot: &str, qty: Decimal) -> (r: Result<(), ArithError>)
        ensures
            match r {
                Ok(_) => closed(old(self)@, slot@, qty) == Ok::<StoreModel, ArithError>(
                    final(self)@,
                ),
                Err(_) => closed(old(self)@, slot@, qty) is Err && final(self)@ == old(self)@,
            },
            // Closing all that is held leaves nothing.
            is_open(old(self)@, slot@) && qty.units() == old(self)@.positions[slot@].qty.units()
                ==> r is Ok && final(self)@ == (StoreModel {
                positions: old(self)@.positions.remove(slot@),
                pending: old(self)@.pending.remove(slot@),
            }),
    {
        let before = match self.positions.get(slot) {
            None => {
                self.release_pending(slot);
                return Ok(());
            },
            Some(p) => p.qty,
        };
        let rest = before.minus(qty);
        proof {
            if before.units() > 0 && qty.units() == before.units() {
                lemma_nothing_left(before, qty, rest);
            }
        }
        let left = rest?.max(Decimal::zero());
        self.resize(slot, left)?;
        self.release_pending(slot);
        Ok(())
    }

    fn resize(&mut self, slot: &str, qty: Decimal) -> (r: Result<(), ArithError>)
        requires
            old(self)@.positions.contains_key(slot@),
        ensures
            final(self)@.pending == old(self)@.pending,
            qty.units() == 0 ==> r is Ok,
            match r {
                Ok(_) => resized(old(self)@.positions, slot@, qty) == Ok::<
                    Map<Seq<char>, PosModel>,
                    ArithError,
                >(final(self)@.positions),
                Err(_) => resized(old(self)@.positions, slot@, qty) is Err && final(self)@
                    == old(self)@,
            },
    {
        let ghost start = self@;
        let (notional, before) = match self.positions.get(slot) {
            Some(p) => (p.entry_notional_usdc, p.qty),
            None => {
                return Ok(());
            },
        };
        let left = scale_down(notional, qty, before)?;
        let taken = self.positions.remove(slot);
        if let Some(p) = taken {
            if !qty.is_zero() {
                let mut q = p;
                q.qty = qty;
                q.entry_notional_usdc = left;
                self.positions.insert(slot, q);
            }
        }
        proof {
            assert(self@.positions =~= resized(start.positions, slot@, qty)->Ok_0);
        }
        Ok(())
    }

    /// Sets the step of a position after part of it was closed.
    pub fn set_grid(&mut self, slot: &str, grid: i32)
        ensures
            final(self)@ == (if old(self)@.positions.contains_key(slot@) {
                StoreModel {
                    positions: old(self)@.positions.insert(
                        slot@,
                        PosModel { grid, ..old(self)@.positions[slot@] },
                    ),
                    ..old(self)@
                }
            } else {
                old(self)@
            }),
    {
        let ghost start = self@;
        if let Some(p) = self.positions.remove(slot) {
            let mut q = p;
            q.grid = grid;
            self.positions.insert(slot, q);
        }
        proof {
            assert(self@.positions =~= (if start.positions.contains_key(slot@) {
                start.positions.insert(slot@, PosModel { grid, ..start.positions[slot@] })
            } else {
                start.positions
            }));
        }
    }

    /// Brings a position down to what the venues hold, never up: that would
    /// widen what is at stake. Says what memory and the venues held where it did.
    pub fn reconcile_qty(&mut self, slot: &str, exchange_qty: Decimal) -> (r: Result<
        Option<(Decimal, Decimal)>,
        ArithError,
    >)
        ensures
            ({
                let m = old(self)@;
                let next = resized(m.positions, slot@, dmax(exchange_qty, lit(0, 0)));
                if !overstated(m, slot@, exchange_qty) {
                    r == Ok::<Option<(Decimal, Decimal)>, ArithError>(None) && final(self)@ == m
                } else {
                    match next {
                        Ok(positions) => r == Ok::<Option<(Decimal, Decimal)>, ArithError>(
                            Some((m.positions[slot@].qty, exchange_qty)),
                        ) && final(self)@ == (StoreModel { positions, ..m }),
                        Err(_) => r is Err && final(self)@ == m,
                    }
                }
            }),
    {
        let before = match self.positions.get(slot) {
            None => {
                return Ok(None);
            },
            Some(p) => p.qty,
        };
        if !before.is_positive() || exchange_qty >= before {
            return Ok(None);
        }
        self.resize(slot, exchange_qty.max(Decimal::zero()))?;
        Ok(Some((before, exchange_qty)))
    }

    pub fn is_pending(&self, slot: &str) -> (r: bool)
        ensures
            r == self@.pending.contains(slot@),
    {
        self.pending_opens.contains(slot)
    }

    /// What the positions of a coin were worth when opened, over all pairs of
    /// venues.
    pub fn held_notional_for_pair(&self, pair_id: &str) -> (r: Calc)
        ensures
            names_all(self@, self.order()),
            r == total_value(
                self@,
                self.order(),
                |p: PosModel| p.pair_id == pair_id@,
                Ok(lit(0, 0)),
            ),
    {
        let n = self.positions.len();
        let ghost ks = self.order();
        let ghost pick = |p: PosModel| p.pair_id == pair_id@;
        let mut acc = Decimal::zero();
        let mut i: usize = 0;
        proof {
            assert(self@.positions.dom() =~= self.positions@.dom());
            assert(ks.skip(0) =~= ks);
        }
        while i < n
            invariant
                ks == self.order(),
                ks == self.positions.keys(),
                n == ks.len(),
                names_all(self@, ks),
                i <= n,
                pick == (|p: PosModel| p.pair_id == pair_id@),
                total_value(self@, ks, pick, Ok(lit(0, 0))) == total_value(
                    self@,
                    ks.skip(i as int),
                    pick,
                    Ok(acc),
                ),
            decreases n - i,
        {
            let p = self.positions.value(i);
            proof {
                assert(ks.skip(i as int).drop_first() =~= ks.skip(i + 1));
                assert(pos_model(*p) == self@.positions[ks[i as int]]);
                lemma_total_err(self@, ks.skip(i + 1), pick);
            }
            if same(p.pair_id.as_str(), pair_id) && p.qty.is_positive() {
                acc = acc.plus(p.entry_notional_usdc)?;
            }
            i = i + 1;
        }
        Ok(acc)
    }

    /// What all positions were worth when opened.
    pub fn held_notional_total(&self) -> (r: Calc)
        ensures
            names_all(self@, self.order()),
            r == total_value(self@, self.order(), |p: PosModel| true, Ok(lit(0, 0))),
    {
        let n = self.positions.len();
        let ghost ks = self.order();
        let ghost pick = |p: PosModel| true;
        let mut acc = Decimal::zero();
        let mut i: usize = 0;
        proof {
            assert(self@.positions.dom() =~= self.positions@.dom());
            assert(ks.skip(0) =~= ks);
        }
        while i < n
            invariant
                ks == self.order(),
                ks == self.positions.keys(),
                n == ks.len(),
                names_all(self@, ks),
                i <= n,
                pick == (|p: PosModel| true),
                total_value(self@, ks, pick, Ok(lit(0, 0))) == total_value(
                    self@,
                    ks.skip(i as int),
                    pick,
                    Ok(acc),
                ),
            decreases n - i,
        {
            let p = self.positions.value(i);
            proof {
                assert(ks.skip(i as int).drop_first() =~= ks.skip(i + 1));
                assert(pos_model(*p) == self@.positions[ks[i as int]]);
                lemma_total_err(self@, ks.skip(i + 1), pick);
            }
            if p.qty.is_positive() {
                acc = acc.plus(p.entry_notional_usdc)?;
            }
            i = i + 1;
        }
        Ok(acc)
    }

    /// The positions that are held.
    pub fn all_open(&self) -> (r: Vec<Position>)
        ensures
            names_all(self@, self.order()),
            r@.map_values(|p: Position| pos_model(p)) == held_list(self@, self.order()),
    {
        let n = self.positions.len();
        let ghost ks = self.order();
        let mut out: Vec<Position> = Vec::new();
        let mut i: usize = 0;
        proof {
            assert(self@.positions.dom() =~= self.positions@.dom());
            assert(ks.take(0) =~= Seq::empty());
            assert(out@.map_values(|p: Position| pos_model(p)) =~= Seq::empty());
        }
        while i < n
            invariant
                ks == self.order(),
                ks == self.positions.keys(),
                n == ks.len(),
                i <= n,
                names_all(self@, ks),
                out@.map_values(|p: Position| pos_model(p)) == held_list(
                    self@,
                    ks.take(i as int),
                ),
            decreases n - i,
        {
            let ghost before = out@;
            let p = self.positions.value(i);
            proof {
                assert(ks.take(i + 1).drop_last() =~= ks.take(i as int));
                assert(pos_model(*p) == self@.positions[ks[i as int]]);
            }
            if p.qty.is_positive() {
                out.push(p.clone());
                proof {
                    assert(out@.map_values(|p: Position| pos_model(p)) =~= before.map_values(
                        |p: Position| pos_model(p),
                    ).push(pos_model(*p)));
                }
            }
            i = i + 1;
        }
        proof {
            assert(ks.take(n as int) =~= ks);
        }
        out
    }
}

impl Default for PositionStore {
    fn default() -> (r: PositionStore)
        ensures
            r@.positions == Map::<Seq<char>, PosModel>::empty(),
            r@.pending == Set::<Seq<char>>::empty(),
    {
        PositionStore::new()
    }
}

// ---------------------------------------------------------------------------
// Laws
// ---------------------------------------------------------------------------

/// An order on a slot that is held takes no further slot.
pub proof fn law_topping_up_takes_no_slot(m: StoreModel, slot: Seq<char>)
    requires
        is_open(m, slot),
    ensures
        ({
            let n = StoreModel { pending: m.pending.insert(slot), ..m };
            taken_slots(n) == taken_slots(m)
        }),
{
    let n = StoreModel { pending: m.pending.insert(slot), ..m };
    assert(open_slots(n) =~= open_slots(m)) by {
        assert forall|s: Seq<char>| open_slots(n).contains(s) == open_slots(m).contains(s) by {
            assert(is_open(n, s) == is_open(m, s));
        }
    }
    assert(taken_slots(n) =~= taken_slots(m));
}

/// Filling, closing and reconciling one slot leave the others alone.
pub proof fn law_slots_are_separate(
    m: StoreModel,
    slot: Seq<char>,
    other: Seq<char>,
    p: PosModel,
    qty: Decimal,
)
    requires
        other != slot,
    ensures
        opened(m, slot, p) matches Ok(n) ==> is_open(n, other) == is_open(m, other) && (
        m.positions.contains_key(other) ==> n.positions[other] == m.positions[other]),
        closed(m, slot, qty) matches Ok(n) ==> is_open(n, other) == is_open(m, other) && (
        m.positions.contains_key(other) ==> n.positions[other] == m.positions[other]),
{
}

/// Adding to a position neither renews the time of its opening nor changes the
/// quantity of its step.
pub proof fn law_adding_keeps_the_opening(m: StoreModel, slot: Seq<char>, p: PosModel)
    requires
        is_open(m, slot),
        p.buy == m.positions[slot].buy,
        p.sell == m.positions[slot].sell,
    ensures
        opened(m, slot, p) matches Ok(n) ==> n.positions[slot].opened_at
            == m.positions[slot].opened_at && n.positions[slot].base_qty
            == m.positions[slot].base_qty,
{
}

/// Reconciling leaves a position that the venues hold in full or more as it is,
/// and never leaves more than they hold.
pub proof fn law_reconcile_only_shrinks(m: StoreModel, slot: Seq<char>, exchange_qty: Decimal)
    requires
        overstated(m, slot, exchange_qty),
    ensures
        resized(m.positions, slot, dmax(exchange_qty, lit(0, 0))) matches Ok(n)
            ==> !n.contains_key(slot) || n[slot].qty == dmax(exchange_qty, lit(0, 0)),
        dmax(exchange_qty, lit(0, 0)).units() <= m.positions[slot].qty.units(),
{
    broadcast use lemma_lit, lemma_sign;

    assert(lit(0, 0).units() == 0);
}

/// The mean of two values by their weights takes no rounding.
pub open spec fn weighs_exactly(
    v0: Decimal,
    w0: Decimal,
    v1: Decimal,
    w1: Decimal,
    total: Decimal,
) -> bool {
    &&& multiplies_exactly(Ok(v0), Ok(w0))
    &&& multiplies_exactly(Ok(v1), Ok(w1))
    &&& adds_exactly(prod(Ok(v0), Ok(w0)), prod(Ok(v1), Ok(w1)))
    &&& divides_exactly(sum(prod(Ok(v0), Ok(w0)), prod(Ok(v1), Ok(w1))), Ok(total))
}

proof fn lemma_weighs(v0: Decimal, w0: Decimal, v1: Decimal, w1: Decimal, total: Decimal)
    requires
        total.units() > 0,
        weighs_exactly(v0, w0, v1, w1, total),
    ensures
        weighted(v0, w0, v1, w1, total) is Ok,
        value(weighted(v0, w0, v1, w1, total)) * total.units() == v0.units() * w0.units()
            + v1.units() * w1.units(),
{
    let a = value(prod(Ok(v0), Ok(w0)));
    let b = value(prod(Ok(v1), Ok(w1)));
    let w = whole();
    assert((a + b) * w == a * w + b * w) by (nonlinear_arith);
}

/// A mean of two values by weights that are not below zero lies between them.
proof fn lemma_mean_between(x: int, v0: int, w0: int, v1: int, w1: int)
    requires
        w0 >= 0,
        w1 >= 0,
        w0 + w1 > 0,
        x * (w0 + w1) == v0 * w0 + v1 * w1,
        v0 <= v1,
    ensures
        v0 <= x <= v1,
        w1 == 0 ==> x == v0,
        w0 == 0 ==> x == v1,
{
    let t = w0 + w1;
    assert(v0 * t <= v0 * w0 + v1 * w1 <= v1 * t) by (nonlinear_arith)
        requires
            w0 >= 0,
            w1 >= 0,
            t == w0 + w1,
            v0 <= v1,
    ;
    lemma_scaled_order(v0, x, t);
    lemma_scaled_order(x, v1, t);
    if w1 == 0 {
        assert(v1 * w1 == 0) by (nonlinear_arith)
            requires
                w1 == 0,
        ;
        lemma_scaled_order(x, v0, t);
    }
    if w0 == 0 {
        assert(v0 * w0 == 0) by (nonlinear_arith)
            requires
                w0 == 0,
        ;
        lemma_scaled_order(x, v1, t);
    }
}

/// After more was opened the quantities and the values are added up. What opening earned,
/// times the whole value, is what both openings earned times their values; so it lies between
/// the two, and an opening of no value leaves it as it was. The prices go by the quantities
/// in the same way, and the step is the one that is further from zero.
pub proof fn law_adding_weighs_by_value_and_quantity(m: StoreModel, slot: Seq<char>, p: PosModel)
    requires
        is_open(m, slot),
        p.buy == m.positions[slot].buy,
        p.sell == m.positions[slot].sell,
        p.qty.units() > 0,
        p.notional.units() >= 0,
        m.positions[slot].notional.units() > 0,
        adds_exactly(Ok(m.positions[slot].qty), Ok(p.qty)),
        adds_exactly(Ok(m.positions[slot].notional), Ok(p.notional)),
        ({
            let prev = m.positions[slot];
            let q = sum(Ok(prev.qty), Ok(p.qty))->Ok_0;
            let n = sum(Ok(prev.notional), Ok(p.notional))->Ok_0;
            &&& weighs_exactly(prev.net_pct, prev.notional, p.net_pct, p.notional, n)
            &&& weighs_exactly(prev.raw_pct, prev.notional, p.raw_pct, p.notional, n)
            &&& prev.buy_px.units() > 0 && p.buy_px.units() > 0 ==> weighs_exactly(
                prev.buy_px,
                prev.qty,
                p.buy_px,
                p.qty,
                q,
            )
            &&& prev.sell_px.units() > 0 && p.sell_px.units() > 0 ==> weighs_exactly(
                prev.sell_px,
                prev.qty,
                p.sell_px,
                p.qty,
                q,
            )
        }),
    ensures
        opened(m, slot, p) is Ok,
        ({
            let prev = m.positions[slot];
            let r = opened(m, slot, p)->Ok_0.positions[slot];
            let n0 = prev.notional.units();
            let n1 = p.notional.units();
            let q0 = prev.qty.units();
            let q1 = p.qty.units();
            &&& r.qty.units() == q0 + q1
            &&& r.notional.units() == n0 + n1
            &&& r.net_pct.units() * (n0 + n1) == prev.net_pct.units() * n0 + p.net_pct.units() * n1
            &&& r.raw_pct.units() * (n0 + n1) == prev.raw_pct.units() * n0 + p.raw_pct.units() * n1
            &&& prev.net_pct.units() <= p.net_pct.units() ==> prev.net_pct.units()
                <= r.net_pct.units() <= p.net_pct.units()
            &&& prev.raw_pct.units() <= p.raw_pct.units() ==> prev.raw_pct.units()
                <= r.raw_pct.units() <= p.raw_pct.units()
            &&& n1 == 0 ==> r.net_pct.units() == prev.net_pct.units() && r.raw_pct.units()
                == prev.raw_pct.units()
            &&& if prev.buy_px.units() > 0 && p.buy_px.units() > 0 {
                r.buy_px.units() * (q0 + q1) == prev.buy_px.units() * q0 + p.buy_px.units() * q1
            } else {
                r.buy_px.units() == 0
            }
            &&& if prev.sell_px.units() > 0 && p.sell_px.units() > 0 {
                r.sell_px.units() * (q0 + q1) == prev.sell_px.units() * q0 + p.sell_px.units() * q1
            } else {
                r.sell_px.units() == 0
            }
            &&& r.grid == prev.grid || r.grid == p.grid
            &&& steps_from_zero(r.grid as int) >= steps_from_zero(prev.grid as int)
            &&& steps_from_zero(r.grid as int) >= steps_from_zero(p.grid as int)
            &&& r.pair_id == p.pair_id && r.buy == p.buy && r.sell == p.sell
        }),
{
    broadcast use lemma_lit, lemma_sign;

    let prev = m.positions[slot];
    let q = sum(Ok(prev.qty), Ok(p.qty))->Ok_0;
    let n = sum(Ok(prev.notional), Ok(p.notional))->Ok_0;
    lemma_weighs(prev.net_pct, prev.notional, p.net_pct, p.notional, n);
    lemma_weighs(prev.raw_pct, prev.notional, p.raw_pct, p.notional, n);
    if prev.buy_px.units() > 0 && p.buy_px.units() > 0 {
        lemma_weighs(prev.buy_px, prev.qty, p.buy_px, p.qty, q);
    }
    if prev.sell_px.units() > 0 && p.sell_px.units() > 0 {
        lemma_weighs(prev.sell_px, prev.qty, p.sell_px, p.qty, q);
    }
    let r = opened(m, slot, p)->Ok_0.positions[slot];
    let n0 = prev.notional.units();
    let n1 = p.notional.units();
    if prev.net_pct.units() <= p.net_pct.units() {
        lemma_mean_between(r.net_pct.units(), prev.net_pct.units(), n0, p.net_pct.units(), n1);
    } else {
        lemma_mean_between(r.net_pct.units(), p.net_pct.units(), n1, prev.net_pct.units(), n0);
    }
    if prev.raw_pct.units() <= p.raw_pct.units() {
        lemma_mean_between(r.raw_pct.units(), prev.raw_pct.units(), n0, p.raw_pct.units(), n1);
    } else {
        lemma_mean_between(r.raw_pct.units(), p.raw_pct.units(), n1, prev.raw_pct.units(), n0);
    }
}

/// A first fill, and one in the other direction, is held as it came; a fill of nothing
/// leaves what is held alone. Either way no order is under way any more.
pub proof fn law_a_fill_is_held_as_it_came(m: StoreModel, slot: Seq<char>, p: PosModel)
    ensures
        p.qty.units() > 0 && !(is_open(m, slot) && m.positions[slot].buy == p.buy
            && m.positions[slot].sell == p.sell) ==> (opened(m, slot, p) matches Ok(n)
            && n.positions.contains_key(slot) && n.positions[slot] == p),
        p.qty.units() <= 0 ==> (opened(m, slot, p) matches Ok(n) && n.positions == m.positions),
        opened(m, slot, p) matches Ok(n) ==> !n.pending.contains(slot),
{
}

/// What is left after a close is what was held less what was closed, and the value shrinks
/// in the same proportion; closing all or more leaves nothing. Prices, earnings and step
/// stay.
pub proof fn law_closing_keeps_the_value_in_proportion(
    m: StoreModel,
    slot: Seq<char>,
    qty: Decimal,
)
    requires
        is_open(m, slot),
        subtracts_exactly(Ok(m.positions[slot].qty), Ok(qty)),
        ({
            let p = m.positions[slot];
            let left = dmax(diff(Ok(p.qty), Ok(qty))->Ok_0, lit(0, 0));
            multiplies_exactly(Ok(p.notional), Ok(left)) && divides_exactly(
                prod(Ok(p.notional), Ok(left)),
                Ok(p.qty),
            )
        }),
    ensures
        closed(m, slot, qty) is Ok,
        ({
            let p = m.positions[slot];
            let n = closed(m, slot, qty)->Ok_0;
            &&& !n.pending.contains(slot)
            &&& qty.units() >= p.qty.units() ==> !n.positions.contains_key(slot)
            &&& qty.units() < p.qty.units() ==> {
                let r = n.positions[slot];
                &&& n.positions.contains_key(slot)
                &&& r.qty.units() == p.qty.units() - qty.units()
                &&& r.notional.units() * p.qty.units() == p.notional.units() * r.qty.units()
                &&& r == (PosModel { qty: r.qty, notional: r.notional, ..p })
            }
        }),
{
    broadcast use lemma_lit, lemma_sign;

}

/// What the named positions that `pick` takes were worth together.
pub open spec fn worth_of(
    m: StoreModel,
    slots: Seq<Seq<char>>,
    pick: spec_fn(PosModel) -> bool,
) -> int
    decreases slots.len(),
{
    if slots.len() == 0 {
        0
    } else {
        let p = m.positions[slots[0]];
        worth_of(m, slots.drop_first(), pick) + (if pick(p) && p.qty.units() > 0 {
            p.notional.units()
        } else {
            0
        })
    }
}

/// Nothing is rounded away while the values are added up behind `acc`.
pub open spec fn totals_exactly(
    m: StoreModel,
    slots: Seq<Seq<char>>,
    pick: spec_fn(PosModel) -> bool,
    acc: Calc,
) -> bool
    decreases slots.len(),
{
    slots.len() == 0 || {
        let p = m.positions[slots[0]];
        if pick(p) && p.qty.units() > 0 {
            adds_exactly(acc, Ok(p.notional)) && totals_exactly(
                m,
                slots.drop_first(),
                pick,
                sum(acc, Ok(p.notional)),
            )
        } else {
            totals_exactly(m, slots.drop_first(), pick, acc)
        }
    }
}

/// What the positions come to is the sum of what each that is held was worth.
pub proof fn law_value_held_is_the_sum(
    m: StoreModel,
    slots: Seq<Seq<char>>,
    pick: spec_fn(PosModel) -> bool,
    acc: Calc,
)
    requires
        acc is Ok,
        totals_exactly(m, slots, pick, acc),
    ensures
        total_value(m, slots, pick, acc) is Ok,
        value(total_value(m, slots, pick, acc)) == value(acc) + worth_of(m, slots, pick),
    decreases slots.len(),
{
    if slots.len() > 0 {
        let p = m.positions[slots[0]];
        if pick(p) && p.qty.units() > 0 {
            law_value_held_is_the_sum(m, slots.drop_first(), pick, sum(acc, Ok(p.notional)));
        } else {
            law_value_held_is_the_sum(m, slots.drop_first(), pick, acc);
        }
    }
}

/// A leg binds its value over the leverage of its venue, and never more than its value.
pub proof fn law_margin_is_value_over_leverage(
    notional: Decimal,
    sizing: SizingConfig,
    venue: Seq<char>,
)
    requires
        notional.units() >= 0,
        divides_exactly(Ok(notional), Ok(dmax(leverage_of(sizing, venue), lit(1, 0)))),
    ensures
        leg_margin(notional, sizing, venue) is Ok,
        ({
            let x = value(leg_margin(notional, sizing, venue));
            let lev = leverage_of(sizing, venue).units();
            &&& 0 <= x <= notional.units()
            &&& lev >= whole() ==> x * lev == notional.units() * whole()
            &&& lev < whole() ==> x == notional.units()
        }),
{
    crate::decimal::lemma_whole_number(1);
    lemma_whole();
    let x = value(leg_margin(notional, sizing, venue));
    let w = whole();
    let n = notional.units();
    let d = dmax(leverage_of(sizing, venue), lit(1, 0)).units();
    assert(0 <= x <= n) by (nonlinear_arith)
        requires
            x * d == n * w,
            n >= 0,
            d >= w,
            w > 0,
    ;
    if leverage_of(sizing, venue).units() < w {
        lemma_scaled_order(x, n, w);
    }
}

/// A position binds margin.
pub open spec fn binds(p: PosModel) -> bool {
    p.qty.units() > 0 && p.notional.units() > 0
}

/// What stands under a venue.
pub open spec fn units_under(m: Map<Seq<char>, Decimal>, venue: Seq<char>) -> int {
    if m.contains_key(venue) {
        m[venue].units()
    } else {
        0
    }
}

/// What the named positions bind on a venue, each leg counting for its own.
pub open spec fn units_bound(
    m: StoreModel,
    slots: Seq<Seq<char>>,
    sizing: SizingConfig,
    venue: Seq<char>,
) -> int
    decreases slots.len(),
{
    if slots.len() == 0 {
        0
    } else {
        let p = m.positions[slots[0]];
        let x = value(leg_margin(p.notional, sizing, venue));
        units_bound(m, slots.drop_first(), sizing, venue) + (if binds(p) && p.buy == venue {
            x
        } else {
            0
        }) + (if binds(p) && p.sell == venue {
            x
        } else {
            0
        })
    }
}

/// Nothing is rounded away while the margins are added up behind `acc`.
pub open spec fn margins_exactly(
    m: StoreModel,
    slots: Seq<Seq<char>>,
    sizing: SizingConfig,
    acc: Map<Seq<char>, Decimal>,
) -> bool
    decreases slots.len(),
{
    slots.len() == 0 || {
        let p = m.positions[slots[0]];
        if binds(p) {
            let x = leg_margin(p.notional, sizing, p.buy);
            let y = leg_margin(p.notional, sizing, p.sell);
            let one = margin_added(Ok(acc), p.buy, x);
            let both = margin_added(one, p.sell, y);
            &&& x is Ok && y is Ok && one is Ok && both is Ok
            &&& units_under(one->Ok_0, p.buy) == units_under(acc, p.buy) + value(x)
            &&& units_under(both->Ok_0, p.sell) == units_under(one->Ok_0, p.sell) + value(y)
            &&& margins_exactly(m, slots.drop_first(), sizing, both->Ok_0)
        } else {
            margins_exactly(m, slots.drop_first(), sizing, acc)
        }
    }
}

/// What stands bound on a venue is what the legs there bind together; a position counts on
/// both its venues.
pub proof fn law_bound_margin_is_the_sum_of_the_legs(
    m: StoreModel,
    slots: Seq<Seq<char>>,
    sizing: SizingConfig,
    acc: Map<Seq<char>, Decimal>,
    venue: Seq<char>,
)
    requires
        margins_exactly(m, slots, sizing, acc),
    ensures
        margins(m, slots, sizing, Ok(acc)) is Ok,
        units_under(margins(m, slots, sizing, Ok(acc))->Ok_0, venue) == units_under(acc, venue)
            + units_bound(m, slots, sizing, venue),
    decreases slots.len(),
{
    if slots.len() > 0 {
        let p = m.positions[slots[0]];
        if binds(p) {
            let one = margin_added(
                Ok(acc),
                p.buy,
                leg_margin(p.notional, sizing, p.buy),
            );
            let both = margin_added(one, p.sell, leg_margin(p.notional, sizing, p.sell));
            law_bound_margin_is_the_sum_of_the_legs(
                m,
                slots.drop_first(),
                sizing,
                both->Ok_0,
                venue,
            );
        } else {
            law_bound_margin_is_the_sum_of_the_legs(m, slots.drop_first(), sizing, acc, venue);
        }
    }
}

} // verus!
