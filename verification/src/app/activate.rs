//! Which pairs are traded once trading is started.

use crate::app::candidates::{all_parts, has_slot, parts, put_pair, PairParts};
use crate::app::pair_step::{is_listed, listed};
use crate::app::positions::{is_open, PositionStore, StoreModel};
use crate::config::{AppConfig, PairSetting};
use crate::decimal::{
    dmax, dround, lemma_pow10_add, lemma_rounded, pow10, Decimal, MAX_SCALE,
};
use crate::domain::symbol::Pair;
use crate::keymap::KeySet;
use crate::text::{ascii_upper, digits, joined, same, to_ascii_upper, uint_text};
use vstd::prelude::*;

verus! {

/// Why trading cannot be started.
#[derive(Debug)]
pub enum ActivateError {
    /// Bursts trade one symbol, not so many.
    BurstSymbols(usize),
    FewVenues,
    /// These venues have no keys.
    MissingKeys(Vec<String>),
    /// Bursts trade one pair of venues, not so many.
    BurstPairs(usize),
}

/// The texts of a list with commas between them.
pub open spec fn comma_list(s: Seq<String>) -> Seq<char>
    decreases s.len(),
{
    if s.len() == 0 {
        Seq::empty()
    } else if s.len() == 1 {
        s[0]@
    } else {
        comma_list(s.drop_last()) + ", "@ + s.last()@
    }
}

fn comma_listed(v: &Vec<String>) -> (r: String)
    ensures
        r@ == comma_list(v@),
{
    let mut out: String = "".to_owned();
    let mut i: usize = 0;
    proof {
        reveal_strlit("");
        assert(v@.take(0) =~= Seq::empty());
        assert(out@ =~= Seq::empty());
    }
    while i < v.len()
        invariant
            i <= v@.len(),
            out@ == comma_list(v@.take(i as int)),
        decreases v.len() - i,
    {
        proof {
            assert(v@.take(i + 1).drop_last() =~= v@.take(i as int));
            assert(v@.take(i + 1)[0] == v@[0]);
        }
        if i == 0 {
            out = v[0].clone();
        } else {
            out = joined(joined(out.as_str(), ", ").as_str(), v[i].as_str());
        }
        i = i + 1;
    }
    proof {
        assert(v@.take(i as int) =~= v@);
    }
    out
}

impl ActivateError {
    pub open spec fn text(self) -> Seq<char> {
        match self {
            ActivateError::BurstSymbols(n) => "burst mode requires exactly one enabled symbol (got "@
                + digits(n as int) + ")"@,
            ActivateError::FewVenues => "need at least two selected venues"@,
            ActivateError::MissingKeys(v) => "selected venues missing keys: "@ + comma_list(v@),
            ActivateError::BurstPairs(n) =>
                "burst mode requires exactly one venue pair among selected exchanges (got "@
                + digits(n as int) + ")"@,
        }
    }

    pub fn message(&self) -> (r: String)
        ensures
            r@ == self.text(),
    {
        match self {
            ActivateError::BurstSymbols(n) => {
                let a = joined(
                    "burst mode requires exactly one enabled symbol (got ",
                    uint_text(*n as u64).as_str(),
                );
                joined(a.as_str(), ")")
            },
            ActivateError::FewVenues => "need at least two selected venues".to_owned(),
            ActivateError::MissingKeys(v) => joined(
                "selected venues missing keys: ",
                comma_listed(v).as_str(),
            ),
            ActivateError::BurstPairs(n) => {
                let a = joined(
                    "burst mode requires exactly one venue pair among selected exchanges (got ",
                    uint_text(*n as u64).as_str(),
                );
                joined(a.as_str(), ")")
            },
        }
    }
}

/// The venues that have no keys.
pub open spec fn keyless(venues: Seq<String>, keys: Set<Seq<char>>) -> Seq<String>
    decreases venues.len(),
{
    if venues.len() == 0 {
        Seq::empty()
    } else {
        let init = keyless(venues.drop_last(), keys);
        if keys.contains(venues.last()@) {
            init
        } else {
            init.push(venues.last())
        }
    }
}

fn without_keys(venues: &Vec<String>, keys: &KeySet) -> (r: Vec<String>)
    ensures
        r@ == keyless(venues@, keys@.dom()),
{
    let mut out: Vec<String> = Vec::new();
    let mut i: usize = 0;
    proof {
        assert(venues@.take(0) =~= Seq::empty());
    }
    while i < venues.len()
        invariant
            i <= venues@.len(),
            out@ == keyless(venues@.take(i as int), keys@.dom()),
        decreases venues.len() - i,
    {
        proof {
            assert(venues@.take(i + 1).drop_last() =~= venues@.take(i as int));
        }
        if !keys.contains(venues[i].as_str()) {
            out.push(venues[i].clone());
        }
        i = i + 1;
    }
    proof {
        assert(venues@.take(i as int) =~= venues@);
    }
    out
}

/// Trading can be started on these venues: bursts have one symbol, there are at
/// least two venues, and all have keys.
pub fn check_start(cfg: &AppConfig, active: &Vec<String>, keys: &KeySet) -> (r: Result<
    (),
    ActivateError,
>)
    ensures
        if cfg.burst.enabled && cfg.pairs.enabled@.len() != 1 {
            r == Err::<(), ActivateError>(
                ActivateError::BurstSymbols(cfg.pairs.enabled@.len() as usize),
            )
        } else if active@.len() < 2 {
            r == Err::<(), ActivateError>(ActivateError::FewVenues)
        } else if keyless(active@, keys@.dom()).len() > 0 {
            r matches Err(ActivateError::MissingKeys(v)) && v@ == keyless(active@, keys@.dom())
        } else {
            r is Ok
        },
{
    if cfg.burst.enabled && cfg.pairs.enabled.len() != 1 {
        return Err(ActivateError::BurstSymbols(cfg.pairs.enabled.len()));
    }
    if active.len() < 2 {
        return Err(ActivateError::FewVenues);
    }
    let missing = without_keys(active, keys);
    if missing.len() > 0 {
        return Err(ActivateError::MissingKeys(missing));
    }
    Ok(())
}

// ---------------------------------------------------------------------------
// Pairs
// ---------------------------------------------------------------------------

/// A coin is among the symbols that were set, in whatever case.
pub open spec fn is_wanted(settings: Seq<PairSetting>, base: Seq<char>) -> bool {
    exists|i: int|
        0 <= i < settings.len() && (#[trigger] settings[i]).symbol@.len() > 0 && ascii_upper(
            settings[i].symbol@,
        ) == ascii_upper(base)
}

fn wants(settings: &Vec<PairSetting>, base: &str) -> (r: bool)
    ensures
        r == is_wanted(settings@, base@),
{
    let key = to_ascii_upper(base);
    let mut i: usize = 0;
    while i < settings.len()
        invariant
            key@ == ascii_upper(base@),
            i <= settings@.len(),
            forall|j: int|
                0 <= j < i ==> !((#[trigger] settings@[j]).symbol@.len() > 0 && ascii_upper(
                    settings@[j].symbol@,
                ) == ascii_upper(base@)),
        decreases settings.len() - i,
    {
        let s = to_ascii_upper(settings[i].symbol.as_str());
        proof {
            assert(s@.len() == settings@[i as int].symbol@.len());
        }
        if s.as_str().unicode_len() > 0 && same(s.as_str(), key.as_str()) {
            return true;
        }
        i = i + 1;
    }
    false
}

/// The pairs of the symbols that were set.
pub open spec fn wanted_of(pairs: Seq<Pair>, settings: Seq<PairSetting>) -> Seq<PairParts>
    decreases pairs.len(),
{
    if pairs.len() == 0 {
        Seq::empty()
    } else {
        let init = wanted_of(pairs.drop_last(), settings);
        if is_wanted(settings, pairs.last().legs@[0].base@) {
            init.push(parts(pairs.last()))
        } else {
            init
        }
    }
}

pub fn wanted_pairs(pairs: &Vec<Pair>, settings: &Vec<PairSetting>) -> (r: Vec<Pair>)
    ensures
        all_parts(r@) == wanted_of(pairs@, settings@),
{
    let mut out: Vec<Pair> = Vec::new();
    let mut i: usize = 0;
    proof {
        assert(pairs@.take(0) =~= Seq::empty());
        assert(all_parts(out@) =~= Seq::empty());
    }
    while i < pairs.len()
        invariant
            i <= pairs@.len(),
            all_parts(out@) == wanted_of(pairs@.take(i as int), settings@),
        decreases pairs.len() - i,
    {
        proof {
            assert(pairs@.take(i + 1).drop_last() =~= pairs@.take(i as int));
        }
        if wants(settings, pairs[i].legs[0].base.as_str()) {
            put_pair(&mut out, &pairs[i]);
        }
        i = i + 1;
    }
    proof {
        assert(pairs@.take(i as int) =~= pairs@);
    }
    out
}

/// The coarser precision of the two legs.
pub open spec fn precision_of(pair: Pair) -> int {
    let a = pair.legs@[0].qty_precision as int;
    let b = pair.legs@[1].qty_precision as int;
    if b < a {
        b
    } else {
        a
    }
}

/// The quantity of a step can be placed on both venues: not below what they
/// take, and no finer than they take.
pub open spec fn qty_fits(cfg: AppConfig, pair: Pair) -> bool {
    match cfg.setting(pair.legs@[0].base@) {
        None => false,
        Some(s) => s.base_qty.units() >= dmax(
            pair.legs@[0].min_qty,
            pair.legs@[1].min_qty,
        ).units() && s.base_qty.units() == dround(s.base_qty, precision_of(pair)).units(),
    }
}

pub fn validate_pair_qty(cfg: &AppConfig, pair: &Pair) -> (r: bool)
    ensures
        r == qty_fits(*cfg, *pair),
{
    let s = match cfg.pair_setting(pair.legs[0].base.as_str()) {
        None => {
            return false;
        },
        Some(s) => s,
    };
    let a = pair.legs[0].qty_precision;
    let b = pair.legs[1].qty_precision;
    let precision: u32 = if b < a {
        b
    } else {
        a
    };
    if s.base_qty < pair.min_qty() {
        return false;
    }
    s.base_qty == s.base_qty.round_dp(precision)
}

/// A pair is traded: both venues were chosen, and its quantity fits.
pub open spec fn is_selected(cfg: AppConfig, active: Seq<String>, pair: Pair) -> bool {
    listed(active, pair.legs@[0].venue.0@) && listed(active, pair.legs@[1].venue.0@) && qty_fits(
        cfg,
        pair,
    )
}

pub open spec fn selected_of(cfg: AppConfig, active: Seq<String>, pairs: Seq<Pair>) -> Seq<PairParts>
    decreases pairs.len(),
{
    if pairs.len() == 0 {
        Seq::empty()
    } else {
        let init = selected_of(cfg, active, pairs.drop_last());
        if is_selected(cfg, active, pairs.last()) {
            init.push(parts(pairs.last()))
        } else {
            init
        }
    }
}

pub fn select_pairs(cfg: &AppConfig, active: &Vec<String>, pairs: &Vec<Pair>) -> (r: Vec<Pair>)
    ensures
        all_parts(r@) == selected_of(*cfg, active@, pairs@),
{
    let mut out: Vec<Pair> = Vec::new();
    let mut i: usize = 0;
    proof {
        assert(pairs@.take(0) =~= Seq::empty());
        assert(all_parts(out@) =~= Seq::empty());
    }
    while i < pairs.len()
        invariant
            i <= pairs@.len(),
            all_parts(out@) == selected_of(*cfg, active@, pairs@.take(i as int)),
        decreases pairs.len() - i,
    {
        proof {
            assert(pairs@.take(i + 1).drop_last() =~= pairs@.take(i as int));
        }
        let p = &pairs[i];
        if is_listed(active, p.legs[0].venue.as_str()) && is_listed(
            active,
            p.legs[1].venue.as_str(),
        ) && validate_pair_qty(cfg, p) {
            put_pair(&mut out, p);
        }
        i = i + 1;
    }
    proof {
        assert(pairs@.take(i as int) =~= pairs@);
    }
    out
}

/// Something is held on a slot or on its way.
pub open spec fn slot_lives(
    m: StoreModel,
    pending: Set<Seq<char>>,
    placing: Set<Seq<char>>,
    slot: Seq<char>,
) -> bool {
    is_open(m, slot) || pending.contains(slot) || placing.contains(slot)
}

pub fn slot_is_live(positions: &PositionStore, pending: &KeySet, placing: &KeySet, slot: &str) -> (r:
    bool)
    ensures
        r == slot_lives(positions@, pending@.dom(), placing@.dom(), slot@),
{
    let held = match positions.get(slot) {
        Some(p) => p.qty.is_positive(),
        None => false,
    };
    held || pending.contains(slot) || placing.contains(slot)
}

/// The new pairs, and behind them the earlier ones that are not among them but
/// still hold something or have an order under way.
pub open spec fn kept_behind(
    new_pairs: Seq<PairParts>,
    earlier: Seq<Pair>,
    m: StoreModel,
    pending: Set<Seq<char>>,
    placing: Set<Seq<char>>,
) -> Seq<PairParts>
    decreases earlier.len(),
{
    if earlier.len() == 0 {
        new_pairs
    } else {
        let init = kept_behind(new_pairs, earlier.drop_last(), m, pending, placing);
        let p = earlier.last();
        if !has_slot(new_pairs, p.slot()) && slot_lives(m, pending, placing, p.slot()) {
            init.push(parts(p))
        } else {
            init
        }
    }
}

pub fn merge_kept_pairs(
    new_pairs: &Vec<Pair>,
    earlier: &Vec<Pair>,
    positions: &PositionStore,
    pending: &KeySet,
    placing: &KeySet,
) -> (r: Vec<Pair>)
    ensures
        all_parts(r@) == kept_behind(
            all_parts(new_pairs@),
            earlier@,
            positions@,
            pending@.dom(),
            placing@.dom(),
        ),
{
    let mut out: Vec<Pair> = Vec::new();
    let mut k: usize = 0;
    while k < new_pairs.len()
        invariant
            k <= new_pairs@.len(),
            all_parts(out@) =~= all_parts(new_pairs@).take(k as int),
        decreases new_pairs.len() - k,
    {
        put_pair(&mut out, &new_pairs[k]);
        k = k + 1;
    }
    let mut i: usize = 0;
    proof {
        assert(all_parts(new_pairs@).take(k as int) =~= all_parts(new_pairs@));
        assert(earlier@.take(0) =~= Seq::empty());
    }
    while i < earlier.len()
        invariant
            i <= earlier@.len(),
            all_parts(out@) == kept_behind(
                all_parts(new_pairs@),
                earlier@.take(i as int),
                positions@,
                pending@.dom(),
                placing@.dom(),
            ),
        decreases earlier.len() - i,
    {
        proof {
            assert(earlier@.take(i + 1).drop_last() =~= earlier@.take(i as int));
        }
        let slot = earlier[i].slot_key();
        if !crate::app::candidates::holds_slot(new_pairs, slot.as_str()) && slot_is_live(
            positions,
            pending,
            placing,
            slot.as_str(),
        ) {
            put_pair(&mut out, &earlier[i]);
        }
        i = i + 1;
    }
    proof {
        assert(earlier@.take(i as int) =~= earlier@);
    }
    out
}

/// Bursts trade one pair.
pub fn check_pairs(cfg: &AppConfig, pairs: &Vec<Pair>) -> (r: Result<(), ActivateError>)
    ensures
        r == (if cfg.burst.enabled && pairs@.len() != 1 {
            Err(ActivateError::BurstPairs(pairs@.len() as usize))
        } else {
            Ok(())
        }),
{
    if cfg.burst.enabled && pairs.len() != 1 {
        Err(ActivateError::BurstPairs(pairs.len()))
    } else {
        Ok(())
    }
}

/// The pairs that are looked at first, by their places: those that hold something
/// or have an order under way. Closing goes before opening.
pub open spec fn first_looks(
    pairs: Seq<Pair>,
    m: StoreModel,
    pending: Set<Seq<char>>,
    placing: Set<Seq<char>>,
) -> Seq<usize>
    decreases pairs.len(),
{
    if pairs.len() == 0 {
        Seq::empty()
    } else {
        let init = first_looks(pairs.drop_last(), m, pending, placing);
        if slot_lives(m, pending, placing, pairs.last().slot()) {
            init.push((pairs.len() - 1) as usize)
        } else {
            init
        }
    }
}

pub fn must_run(
    pairs: &Vec<Pair>,
    positions: &PositionStore,
    pending: &KeySet,
    placing: &KeySet,
) -> (r: Vec<usize>)
    ensures
        r@ == first_looks(pairs@, positions@, pending@.dom(), placing@.dom()),
{
    let mut out: Vec<usize> = Vec::new();
    let mut i: usize = 0;
    proof {
        assert(pairs@.take(0) =~= Seq::empty());
    }
    while i < pairs.len()
        invariant
            i <= pairs@.len(),
            out@ == first_looks(pairs@.take(i as int), positions@, pending@.dom(), placing@.dom()),
        decreases pairs.len() - i,
    {
        proof {
            assert(pairs@.take(i + 1).drop_last() =~= pairs@.take(i as int));
        }
        if slot_is_live(positions, pending, placing, pairs[i].slot_key().as_str()) {
            out.push(i);
        }
        i = i + 1;
    }
    proof {
        assert(pairs@.take(i as int) =~= pairs@);
    }
    out
}

// ---------------------------------------------------------------------------
// Laws
// ---------------------------------------------------------------------------

/// Choosing other pairs drops none that still holds something.
pub proof fn law_live_pairs_are_kept(
    new_pairs: Seq<PairParts>,
    earlier: Seq<Pair>,
    m: StoreModel,
    pending: Set<Seq<char>>,
    placing: Set<Seq<char>>,
    i: int,
)
    requires
        0 <= i < earlier.len(),
        slot_lives(m, pending, placing, earlier[i].slot()),
    ensures
        has_slot(kept_behind(new_pairs, earlier, m, pending, placing), earlier[i].slot()),
    decreases earlier.len(),
{
    let all = kept_behind(new_pairs, earlier, m, pending, placing);
    let init = kept_behind(new_pairs, earlier.drop_last(), m, pending, placing);
    lemma_new_stay(new_pairs, earlier, m, pending, placing);
    if i < earlier.len() - 1 {
        law_live_pairs_are_kept(new_pairs, earlier.drop_last(), m, pending, placing, i);
        let k = choose|k: int| 0 <= k < init.len() && (#[trigger] init[k]).slot() == earlier[i].slot();
        assert(all[k] == init[k]);
    } else if has_slot(new_pairs, earlier[i].slot()) {
        let k = choose|k: int|
            0 <= k < new_pairs.len() && (#[trigger] new_pairs[k]).slot() == earlier[i].slot();
        assert(all[k] == new_pairs[k]);
    } else {
        assert(all[all.len() - 1].slot() == earlier[i].slot());
    }
}

proof fn lemma_new_stay(
    new_pairs: Seq<PairParts>,
    earlier: Seq<Pair>,
    m: StoreModel,
    pending: Set<Seq<char>>,
    placing: Set<Seq<char>>,
)
    ensures
        kept_behind(new_pairs, earlier, m, pending, placing).len() >= new_pairs.len(),
        forall|k: int|
            0 <= k < new_pairs.len() ==> #[trigger] kept_behind(
                new_pairs,
                earlier,
                m,
                pending,
                placing,
            )[k] == new_pairs[k],
    decreases earlier.len(),
{
    if earlier.len() > 0 {
        lemma_new_stay(new_pairs, earlier.drop_last(), m, pending, placing);
    }
}

/// A step's quantity that fits is one that either venue takes: it is no less than the
/// least of both, and a whole number of the smallest digit that both know.
pub proof fn law_a_step_that_fits_can_be_placed_on_both(cfg: AppConfig, pair: Pair)
    requires
        qty_fits(cfg, pair),
        cfg.setting(pair.legs@[0].base@) matches Some(s) && s.base_qty.valid(),
        pair.legs@[0].qty_precision <= MAX_SCALE,
        pair.legs@[1].qty_precision <= MAX_SCALE,
    ensures
        cfg.setting(pair.legs@[0].base@) matches Some(s) && {
            let q = s.base_qty;
            let (a, b) = (pair.legs@[0], pair.legs@[1]);
            &&& q.units() >= a.min_qty.units()
            &&& q.units() >= b.min_qty.units()
            &&& exists|n: int|
                q.units() == #[trigger] (n * pow10((MAX_SCALE - a.qty_precision) as nat))
            &&& exists|n: int|
                q.units() == #[trigger] (n * pow10((MAX_SCALE - b.qty_precision) as nat))
        },
{
    let q = cfg.setting(pair.legs@[0].base@)->0.base_qty;
    let (a, b) = (pair.legs@[0], pair.legs@[1]);
    let dp = precision_of(pair);
    lemma_rounded(q, dp);
    lemma_whole_digits(q, dp);
    let n = choose|n: int| q.units() == #[trigger] (n * pow10((MAX_SCALE - dp) as nat));
    lemma_coarser_digits(q.units(), n, dp, a.qty_precision as int);
    lemma_coarser_digits(q.units(), n, dp, b.qty_precision as int);
}

/// A value that rounding to `dp` digits leaves alone is a whole number of that digit.
proof fn lemma_whole_digits(q: Decimal, dp: int)
    requires
        q.valid(),
        0 <= dp <= MAX_SCALE,
        q.units() == dround(q, dp).units(),
    ensures
        exists|n: int| q.units() == #[trigger] (n * pow10((MAX_SCALE - dp) as nat)),
{
    lemma_rounded(q, dp);
    let digit = pow10((MAX_SCALE - dp) as nat);
    if q.scl() > dp {
        assert(q.units() == dround(q, dp).mant() * digit);
    } else {
        reveal(Decimal::units);
        let up = pow10((dp - q.scl()) as nat);
        lemma_pow10_add((dp - q.scl()) as nat, (MAX_SCALE - dp) as nat);
        let n = q.mant() * up;
        assert(q.mant() * (up * digit) == n * digit) by (nonlinear_arith)
            requires
                n == q.mant() * up,
        ;
        assert(q.units() == n * digit);
    }
}

/// A whole number of a coarse digit is one of a finer digit.
proof fn lemma_coarser_digits(u: int, n: int, coarse: int, fine: int)
    requires
        0 <= coarse <= fine <= MAX_SCALE,
        u == n * pow10((MAX_SCALE - coarse) as nat),
    ensures
        exists|k: int| u == #[trigger] (k * pow10((MAX_SCALE - fine) as nat)),
{
    let up = pow10((fine - coarse) as nat);
    let digit = pow10((MAX_SCALE - fine) as nat);
    lemma_pow10_add((fine - coarse) as nat, (MAX_SCALE - fine) as nat);
    let k = n * up;
    assert(n * (up * digit) == k * digit) by (nonlinear_arith)
        requires
            k == n * up,
    ;
    assert(u == k * digit);
}

/// The pairs taken are those of the list, and no others, on two venues that trade and
/// with a quantity that both take.
pub proof fn law_pairs_taken_can_be_traded(
    cfg: AppConfig,
    active: Seq<String>,
    pairs: Seq<Pair>,
    x: PairParts,
)
    ensures
        selected_of(cfg, active, pairs).contains(x) <==> exists|i: int|
            0 <= i < pairs.len() && parts(#[trigger] pairs[i]) == x && listed(
                active,
                pairs[i].legs@[0].venue.0@,
            ) && listed(active, pairs[i].legs@[1].venue.0@) && qty_fits(cfg, pairs[i]),
    decreases pairs.len(),
{
    let s = selected_of(cfg, active, pairs);
    if pairs.len() > 0 {
        let t = pairs.drop_last();
        let init = selected_of(cfg, active, t);
        law_pairs_taken_can_be_traded(cfg, active, t, x);
        assert(pairs[pairs.len() - 1] == pairs.last());
        if s.contains(x) {
            if !(is_selected(cfg, active, pairs.last()) && parts(pairs.last()) == x) {
                let k = choose|k: int| 0 <= k < s.len() && s[k] == x;
                assert(init[k] == x);
                let i = choose|i: int|
                    0 <= i < t.len() && parts(#[trigger] t[i]) == x && is_selected(cfg, active, t[i]);
                assert(pairs[i] == t[i]);
            }
        }
        if exists|i: int|
            0 <= i < pairs.len() && parts(#[trigger] pairs[i]) == x && is_selected(
                cfg,
                active,
                pairs[i],
            ) {
            let i = choose|i: int|
                0 <= i < pairs.len() && parts(#[trigger] pairs[i]) == x && is_selected(
                    cfg,
                    active,
                    pairs[i],
                );
            if i < t.len() {
                assert(t[i] == pairs[i]);
                let k = choose|k: int| 0 <= k < init.len() && init[k] == x;
                assert(s[k] == x);
            } else {
                assert(s[s.len() - 1] == x);
            }
        }
    }
}

} // verus!
