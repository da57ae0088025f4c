//! Filling a position in several rounds, resting it out, and closing it the same
//! way. Apart from the grid.

use crate::app::risk::{books_quality_ok, quality};
use crate::clock::{Duration, Instant, NANOS_PER_SEC};
use crate::config::AppConfig;
use crate::decimal::{
    dmin, fits, lemma_multiplies_exactly, lemma_whole, lemma_whole_number, lit, prod, value, whole,
    ArithError, Calc, Decimal,
};
use crate::domain::book::Bbo;
use crate::text::{contains, has_part, joined, digits, uint_text};
use vstd::prelude::*;

verus! {

#[derive(Clone, Copy, Debug, PartialEq, Eq, Structural)]
pub enum BurstPhase {
    Opening,
    RepPause,
    Cooldown,
    Closing,
    Stopped,
}

/// After which kind of round a pause is.
#[derive(Clone, Copy, Debug, PartialEq, Eq, Structural)]
pub enum PauseKind {
    AfterOpenRep,
    AfterCloseRep,
}

#[derive(Clone, Copy, Debug)]
pub struct BurstSlot {
    pub phase: BurstPhase,
    pub open_reps_done: u32,
    pub wait_until: Option<Instant>,
    pub peak_capacity_checked: bool,
    pub pause_kind: Option<PauseKind>,
}

pub open spec fn new_slot() -> BurstSlot {
    BurstSlot {
        phase: BurstPhase::Opening,
        open_reps_done: 0,
        wait_until: None,
        peak_capacity_checked: false,
        pause_kind: None,
    }
}

impl Default for BurstSlot {
    fn default() -> (r: BurstSlot)
        ensures
            r == new_slot(),
    {
        BurstSlot {
            phase: BurstPhase::Opening,
            open_reps_done: 0,
            wait_until: None,
            peak_capacity_checked: false,
            pause_kind: None,
        }
    }
}

/// `span` after `now`, or the end of the clock.
pub open spec fn later(now: Instant, span: Duration) -> Instant {
    Instant {
        nanos: if now.nanos + span.nanos <= u128::MAX {
            (now.nanos + span.nanos) as u128
        } else {
            u128::MAX
        },
    }
}

/// A slot that rests.
pub open spec fn resting(st: BurstSlot, now: Instant, cooldown: Duration) -> BurstSlot {
    BurstSlot { phase: BurstPhase::Cooldown, wait_until: Some(later(now, cooldown)), ..st }
}

/// A slot whose wait is over. After an opening round comes the next, or the rest
/// once there were enough; after a closing round the next; after the rest
/// closing, or opening anew where nothing is held.
pub open spec fn advanced(
    st: BurstSlot,
    repeats: u32,
    held: bool,
    now: Instant,
    cooldown: Duration,
) -> BurstSlot {
    let free = BurstSlot { wait_until: None, ..st };
    match st.phase {
        BurstPhase::RepPause => {
            let next = BurstSlot { pause_kind: None, ..free };
            match st.pause_kind {
                Some(PauseKind::AfterOpenRep) => if st.open_reps_done >= repeats {
                    resting(next, now, cooldown)
                } else {
                    BurstSlot { phase: BurstPhase::Opening, ..next }
                },
                Some(PauseKind::AfterCloseRep) => BurstSlot { phase: BurstPhase::Closing, ..next },
                None => BurstSlot { phase: BurstPhase::Opening, ..next },
            }
        },
        BurstPhase::Cooldown => if held {
            BurstSlot { phase: BurstPhase::Closing, ..free }
        } else {
            BurstSlot {
                phase: BurstPhase::Opening,
                open_reps_done: 0,
                peak_capacity_checked: false,
                ..free
            }
        },
        _ => free,
    }
}

pub fn advance(st: BurstSlot, repeats: u32, held: bool, now: Instant, cooldown: Duration) -> (r:
    BurstSlot)
    ensures
        r == advanced(st, repeats, held, now, cooldown),
{
    let mut s = st;
    s.wait_until = None;
    match st.phase {
        BurstPhase::RepPause => {
            s.pause_kind = None;
            match st.pause_kind {
                Some(PauseKind::AfterOpenRep) => {
                    if st.open_reps_done >= repeats {
                        s.phase = BurstPhase::Cooldown;
                        s.wait_until = Some(now.after(cooldown));
                    } else {
                        s.phase = BurstPhase::Opening;
                    }
                },
                Some(PauseKind::AfterCloseRep) => {
                    s.phase = BurstPhase::Closing;
                },
                None => {
                    s.phase = BurstPhase::Opening;
                },
            }
        },
        BurstPhase::Cooldown => {
            if held {
                s.phase = BurstPhase::Closing;
            } else {
                s.phase = BurstPhase::Opening;
                s.open_reps_done = 0;
                s.peak_capacity_checked = false;
            }
        },
        _ => {},
    }
    s
}

/// What is known of a slot before its books are read.
#[derive(Clone, Copy, Debug)]
pub struct BurstFacts {
    pub enabled: bool,
    /// An order rests, or both legs are being placed.
    pub busy: bool,
    /// Something is held.
    pub held: bool,
}

#[derive(Clone, Copy, Debug, PartialEq, Eq, Structural)]
pub enum BurstStep {
    /// Switched off and nothing under way.
    Idle,
    Busy,
    /// A person must look.
    Stopped,
    /// So many seconds are left to wait.
    Wait(u128),
    NotStarted,
    Go,
}

pub open spec fn burst_entered(
    st: BurstSlot,
    f: BurstFacts,
    repeats: u32,
    now: Instant,
    cooldown: Duration,
) -> (BurstSlot, BurstStep) {
    if !f.enabled && !f.busy && !f.held {
        (st, BurstStep::Idle)
    } else if f.busy {
        (st, BurstStep::Busy)
    } else if st.phase == BurstPhase::Stopped {
        (st, BurstStep::Stopped)
    } else if st.wait_until is Some && now.nanos < st.wait_until->0.nanos {
        (
            st,
            BurstStep::Wait(
                ((st.wait_until->0.nanos - now.nanos) as int / NANOS_PER_SEC as int) as u128,
            ),
        )
    } else {
        let next = if st.wait_until is Some {
            advanced(st, repeats, f.held, now, cooldown)
        } else {
            st
        };
        (
            next,
            if f.enabled {
                BurstStep::Go
            } else {
                BurstStep::NotStarted
            },
        )
    }
}

/// One look at a slot: it may move on to its next phase.
pub fn burst_enter(
    st: BurstSlot,
    f: BurstFacts,
    repeats: u32,
    now: Instant,
    cooldown: Duration,
) -> (r: (BurstSlot, BurstStep))
    ensures
        r == burst_entered(st, f, repeats, now, cooldown),
{
    if !f.enabled && !f.busy && !f.held {
        return (st, BurstStep::Idle);
    }
    if f.busy {
        return (st, BurstStep::Busy);
    }
    if st.phase == BurstPhase::Stopped {
        return (st, BurstStep::Stopped);
    }
    let mut next = st;
    if let Some(until) = st.wait_until {
        if now.nanos < until.nanos {
            return (st, BurstStep::Wait((until.nanos - now.nanos) / NANOS_PER_SEC));
        }
        next = advance(st, repeats, f.held, now, cooldown);
    }
    if f.enabled {
        (next, BurstStep::Go)
    } else {
        (next, BurstStep::NotStarted)
    }
}

/// Why a slot that goes on does not trade.
#[derive(Clone, Copy, Debug, PartialEq, Eq, Structural)]
pub enum BurstBlock {
    NoKeys,
    NoBook,
    Stale,
    NotConfigured,
    NoBaseQty,
}

pub open spec fn burst_base(
    cfg: AppConfig,
    keys_ready: bool,
    b0: Option<Bbo>,
    b1: Option<Bbo>,
    base: Seq<char>,
    now: Instant,
) -> Result<Result<Decimal, BurstBlock>, ArithError> {
    if !keys_ready {
        Ok(Err(BurstBlock::NoKeys))
    } else if b0 is None || b1 is None {
        Ok(Err(BurstBlock::NoBook))
    } else {
        match quality(cfg, b0->0, b1->0, now) {
            Err(e) => Err(e),
            Ok(Some(_)) => Ok(Err(BurstBlock::Stale)),
            Ok(None) => match cfg.setting(base) {
                None => Ok(Err(BurstBlock::NotConfigured)),
                Some(s) => if s.base_qty.units() <= 0 {
                    Ok(Err(BurstBlock::NoBaseQty))
                } else {
                    Ok(Ok(s.base_qty))
                },
            },
        }
    }
}

/// The quantity of a round, or why there is none.
pub fn burst_base_qty(
    cfg: &AppConfig,
    keys_ready: bool,
    b0: Option<&Bbo>,
    b1: Option<&Bbo>,
    base: &str,
    now: Instant,
) -> (r: Result<Result<Decimal, BurstBlock>, ArithError>)
    ensures
        r == burst_base(
            *cfg,
            keys_ready,
            crate::app::pair_step::seen_book(b0),
            crate::app::pair_step::seen_book(b1),
            base@,
            now,
        ),
{
    if !keys_ready {
        return Ok(Err(BurstBlock::NoKeys));
    }
    let (a, b) = match (b0, b1) {
        (Some(a), Some(b)) => (a, b),
        _ => {
            return Ok(Err(BurstBlock::NoBook));
        },
    };
    match books_quality_ok(cfg, a, b, now)? {
        Err(_) => {
            return Ok(Err(BurstBlock::Stale));
        },
        Ok(_) => {},
    }
    match cfg.pair_setting(base) {
        None => Ok(Err(BurstBlock::NotConfigured)),
        Some(s) => if !s.base_qty.is_positive() {
            Ok(Err(BurstBlock::NoBaseQty))
        } else {
            Ok(Ok(s.base_qty))
        },
    }
}

/// The quantity of all opening rounds together: the margin is held against it
/// before the first.
pub fn peak_qty(base_qty: Decimal, repeats: u32) -> (r: Calc)
    ensures
        r == prod(Ok(base_qty), Ok(lit(repeats as int, 0))),
        // The quantity of a round, so many times.
        fits(base_qty.mant() * repeats) ==> r is Ok && r->Ok_0.units() == repeats
            * base_qty.units(),
{
    let n = Decimal::from_int(repeats as i64);
    let r = base_qty.times(n);
    proof {
        if fits(base_qty.mant() * repeats) {
            lemma_multiplies_exactly(base_qty, n);
            lemma_whole();
            lemma_whole_number(repeats as int);
            let w = whole();
            let q = base_qty.units();
            let k = repeats as int;
            let x = value(r);
            assert(x == k * q) by (nonlinear_arith)
                requires
                    x * w == q * (k * w),
                    w > 0,
            ;
        }
    }
    r
}

/// What is known when a round is to open.
#[derive(Clone, Copy, Debug)]
pub struct OpenRound {
    pub held: bool,
    /// The coin stands open on one side, or is just being hedged.
    pub naked: bool,
    pub chosen: bool,
    /// The margin does not carry all rounds together.
    pub refused: bool,
    pub has_spread: bool,
    pub tradable: bool,
}

#[derive(Clone, Copy, Debug, PartialEq, Eq, Structural)]
pub enum RoundStep {
    Naked,
    NotChosen,
    /// Enough was opened, or all was closed: the slot rests.
    Rest,
    NoCapacity,
    NoSpread,
    Thin,
    /// The round is placed.
    Place,
}

/// A round that is to open. The first one of an empty slot is not opened while
/// the coin stands open on one side or its venues are not chosen.
pub open spec fn open_round_of(
    st: BurstSlot,
    f: OpenRound,
    repeats: u32,
    now: Instant,
    cooldown: Duration,
) -> (BurstSlot, RoundStep) {
    let checked = BurstSlot { peak_capacity_checked: true, ..st };
    if !f.held && f.naked {
        (st, RoundStep::Naked)
    } else if !f.held && !f.chosen {
        (st, RoundStep::NotChosen)
    } else if st.open_reps_done >= repeats {
        (resting(st, now, cooldown), RoundStep::Rest)
    } else if !st.peak_capacity_checked && f.refused {
        (st, RoundStep::NoCapacity)
    } else if !f.has_spread {
        (checked, RoundStep::NoSpread)
    } else if !f.tradable {
        (checked, RoundStep::Thin)
    } else {
        (checked, RoundStep::Place)
    }
}

pub fn open_round(st: BurstSlot, f: OpenRound, repeats: u32, now: Instant, cooldown: Duration) -> (r:
    (BurstSlot, RoundStep))
    ensures
        r == open_round_of(st, f, repeats, now, cooldown),
{
    if !f.held && f.naked {
        return (st, RoundStep::Naked);
    }
    if !f.held && !f.chosen {
        return (st, RoundStep::NotChosen);
    }
    let mut s = st;
    if st.open_reps_done >= repeats {
        s.phase = BurstPhase::Cooldown;
        s.wait_until = Some(now.after(cooldown));
        return (s, RoundStep::Rest);
    }
    if !st.peak_capacity_checked && f.refused {
        return (st, RoundStep::NoCapacity);
    }
    s.peak_capacity_checked = true;
    if !f.has_spread {
        (s, RoundStep::NoSpread)
    } else if !f.tradable {
        (s, RoundStep::Thin)
    } else {
        (s, RoundStep::Place)
    }
}

/// A round that closes: at most what is held, and rest once nothing is.
pub open spec fn close_round_of(
    st: BurstSlot,
    base_qty: Decimal,
    held: Decimal,
    now: Instant,
    cooldown: Duration,
) -> (BurstSlot, Option<Decimal>) {
    if held.units() <= 0 {
        (resting(st, now, cooldown), None)
    } else {
        (st, Some(dmin(base_qty, held)))
    }
}

pub fn close_round(
    st: BurstSlot,
    base_qty: Decimal,
    held: Decimal,
    now: Instant,
    cooldown: Duration,
) -> (r: (BurstSlot, Option<Decimal>))
    ensures
        r == close_round_of(st, base_qty, held, now, cooldown),
{
    if !held.is_positive() {
        let mut s = st;
        s.phase = BurstPhase::Cooldown;
        s.wait_until = Some(now.after(cooldown));
        (s, None)
    } else {
        (st, Some(base_qty.min(held)))
    }
}

/// The step after a round: one up, or one down but not below zero.
pub open spec fn round_grid(from: int, is_open: bool) -> int {
    if is_open {
        from + 1
    } else if from - 1 < 0 {
        0
    } else {
        from - 1
    }
}

pub fn grid_after_round(from: i32, is_open: bool) -> (r: i32)
    requires
        is_open ==> from < i32::MAX,
    ensures
        r == round_grid(from as int, is_open),
{
    if is_open {
        from + 1
    } else if from <= 0 {
        0
    } else {
        from - 1
    }
}

/// A round was filled: the slot pauses.
pub open spec fn round_done(st: BurstSlot, is_open: bool, now: Instant, pause: Duration) -> BurstSlot {
    BurstSlot {
        phase: BurstPhase::RepPause,
        open_reps_done: if is_open {
            (st.open_reps_done + 1) as u32
        } else {
            st.open_reps_done
        },
        wait_until: Some(later(now, pause)),
        pause_kind: Some(
            if is_open {
                PauseKind::AfterOpenRep
            } else {
                PauseKind::AfterCloseRep
            },
        ),
        ..st
    }
}

pub fn on_round_filled(st: BurstSlot, is_open: bool, now: Instant, pause: Duration) -> (r: BurstSlot)
    requires
        is_open ==> st.open_reps_done < u32::MAX,
    ensures
        r == round_done(st, is_open, now, pause),
{
    let mut s = st;
    if is_open {
        s.open_reps_done = st.open_reps_done + 1;
        s.pause_kind = Some(PauseKind::AfterOpenRep);
    } else {
        s.pause_kind = Some(PauseKind::AfterCloseRep);
    }
    s.phase = BurstPhase::RepPause;
    s.wait_until = Some(now.after(pause));
    s
}

/// A round failed: the slot stops where a leg may stand open.
pub open spec fn round_failed(st: BurstSlot, err: Seq<char>) -> BurstSlot {
    if has_part(err, "BURST_HEDGE_FAILED"@) || has_part(err, "BURST_ZERO_FILL"@) {
        BurstSlot { phase: BurstPhase::Stopped, wait_until: None, ..st }
    } else {
        st
    }
}

/// The slot after a failed round, and whether a person must look.
pub fn on_round_failed(st: BurstSlot, err: &str) -> (r: (BurstSlot, bool))
    ensures
        r.0 == round_failed(st, err@),
        r.1 == (has_part(err@, "BURST_HEDGE_FAILED"@) || has_part(err@, "BURST_ZERO_FILL"@)),
{
    if contains(err, "BURST_HEDGE_FAILED") || contains(err, "BURST_ZERO_FILL") {
        let mut s = st;
        s.phase = BurstPhase::Stopped;
        s.wait_until = None;
        (s, true)
    } else {
        (st, false)
    }
}

/// How far a slot is.
pub open spec fn progress_text(st: BurstSlot, repeats: int) -> Seq<char> {
    match st.phase {
        BurstPhase::Opening => "开 "@ + digits(st.open_reps_done as int) + "/"@ + digits(
            repeats,
        ),
        BurstPhase::Closing => "平仓中"@,
        BurstPhase::Stopped => "停止"@,
        _ => Seq::empty(),
    }
}

/// What a row says of a slot.
pub open spec fn burst_text(st: BurstSlot, repeats: int, status: Seq<char>) -> Seq<char> {
    if st.phase == BurstPhase::RepPause || st.phase == BurstPhase::Cooldown {
        status
    } else {
        status + " · "@ + progress_text(st, repeats)
    }
}

pub fn burst_status(st: BurstSlot, repeats: u32, status: &str) -> (r: String)
    ensures
        r@ == burst_text(st, repeats as int, status@),
{
    let extra = match st.phase {
        BurstPhase::Opening => {
            let done = joined("开 ", uint_text(st.open_reps_done as u64).as_str());
            joined(joined(done.as_str(), "/").as_str(), uint_text(repeats as u64).as_str())
        },
        BurstPhase::Closing => "平仓中".to_owned(),
        BurstPhase::Stopped => "停止".to_owned(),
        _ => {
            return status.to_owned();
        },
    };
    joined(joined(status, " · ").as_str(), extra.as_str())
}

// ---------------------------------------------------------------------------
// Laws
// ---------------------------------------------------------------------------

/// A slot that was stopped stays so until a person looks: no look at it moves it
/// on or lets it trade.
pub proof fn law_stopped_stays(
    st: BurstSlot,
    f: BurstFacts,
    repeats: u32,
    now: Instant,
    cooldown: Duration,
)
    requires
        st.phase == BurstPhase::Stopped,
    ensures
        burst_entered(st, f, repeats, now, cooldown).0 == st,
        burst_entered(st, f, repeats, now, cooldown).1 != BurstStep::Go,
{
}

/// After the last opening round the slot rests before it closes.
pub proof fn law_rest_before_closing(
    st: BurstSlot,
    repeats: u32,
    held: bool,
    now: Instant,
    cooldown: Duration,
)
    requires
        st.phase == BurstPhase::RepPause,
        st.pause_kind == Some(PauseKind::AfterOpenRep),
    ensures
        advanced(st, repeats, held, now, cooldown).phase == (if st.open_reps_done >= repeats {
            BurstPhase::Cooldown
        } else {
            BurstPhase::Opening
        }),
        st.open_reps_done >= repeats ==> advanced(
            st,
            repeats,
            held,
            now,
            cooldown,
        ).wait_until is Some,
{
}

/// No more rounds open than there are to be.
pub proof fn law_no_round_beyond_the_last(
    st: BurstSlot,
    f: OpenRound,
    repeats: u32,
    now: Instant,
    cooldown: Duration,
)
    requires
        st.open_reps_done >= repeats,
    ensures
        open_round_of(st, f, repeats, now, cooldown).1 != RoundStep::Place,
{
}

/// A round closes at most what is held and at most a round's quantity, and all of it where that
/// is less; with nothing held the slot rests.
pub proof fn law_a_round_closes_no_more_than_is_held(
    st: BurstSlot,
    base_qty: Decimal,
    held: Decimal,
    now: Instant,
    cooldown: Duration,
)
    ensures
        ({
            let (next, qty) = close_round_of(st, base_qty, held, now, cooldown);
            &&& qty is Some <==> held.units() > 0
            &&& qty matches Some(q) ==> q.units() <= held.units() && q.units() <= base_qty.units()
                && (q.units() == held.units() || q.units() == base_qty.units()) && next == st
            &&& qty is None ==> next.phase == BurstPhase::Cooldown
        }),
{
}

/// The rounds of a slot: an opening round that is filled counts, and after its pause the next
/// one opens until there were enough; then the slot rests, and closes what it holds. A closing
/// round counts for nothing, and after its pause the next one closes. With nothing held the
/// rest ends in opening anew, from none.
pub proof fn law_rounds_follow_each_other(
    st: BurstSlot,
    repeats: u32,
    now: Instant,
    later_on: Instant,
    pause: Duration,
    cooldown: Duration,
)
    requires
        st.open_reps_done < u32::MAX,
    ensures
        ({
            let a = round_done(st, true, now, pause);
            let b = advanced(a, repeats, true, later_on, cooldown);
            &&& a.open_reps_done == st.open_reps_done + 1
            &&& b.open_reps_done == st.open_reps_done + 1
            &&& st.open_reps_done + 1 < repeats ==> b.phase == BurstPhase::Opening
                && b.wait_until is None
            &&& st.open_reps_done + 1 >= repeats ==> b.phase == BurstPhase::Cooldown
                && b.wait_until == Some(later(later_on, cooldown))
            &&& advanced(
                (BurstSlot { phase: BurstPhase::Cooldown, ..b }),
                repeats,
                true,
                later_on,
                cooldown,
            ).phase == BurstPhase::Closing
        }),
        ({
            let a = round_done(st, false, now, pause);
            let b = advanced(a, repeats, true, later_on, cooldown);
            a.open_reps_done == st.open_reps_done && b.phase == BurstPhase::Closing
        }),
        ({
            let a = resting(st, now, cooldown);
            let b = advanced(a, repeats, false, later_on, cooldown);
            b.phase == BurstPhase::Opening && b.open_reps_done == 0 && !b.peak_capacity_checked
        }),
        round_done(st, true, now, pause).wait_until == Some(later(now, pause)),
        round_done(st, false, now, pause).wait_until == Some(later(now, pause)),
        later(now, pause).nanos >= now.nanos,
        now.nanos + pause.nanos <= u128::MAX ==> later(now, pause).nanos == now.nanos
            + pause.nanos,
{
}

/// While a slot waits it does not trade, and it does not move on before its time.
pub proof fn law_a_waiting_slot_waits_its_time(
    st: BurstSlot,
    f: BurstFacts,
    repeats: u32,
    now: Instant,
    cooldown: Duration,
)
    requires
        st.wait_until matches Some(t) && now.nanos < t.nanos,
    ensures
        burst_entered(st, f, repeats, now, cooldown).0 == st,
        burst_entered(st, f, repeats, now, cooldown).1 != BurstStep::Go,
{
}

/// A round goes up a step, or down one but not below zero: down undoes up.
pub proof fn law_a_closing_round_undoes_an_opening_one(from: int)
    requires
        from >= 0,
    ensures
        round_grid(from, true) == from + 1,
        round_grid(round_grid(from, true), false) == from,
        round_grid(0, false) == 0,
{
}

} // verus!
