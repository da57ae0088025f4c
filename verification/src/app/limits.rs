//! Limits over everything: trades per day, time held, balance and exposure.
//!
//! These only judge; whoever asks decides what to do.

use crate::clock::{Duration, NANOS_PER_SEC};
use crate::decimal::{
    adds_exactly, dabs, dround, lemma_size, lit, magnitude, sum, text_of_decimal, ArithError,
    Decimal,
};
use crate::text::same;
use vstd::prelude::*;

verus! {

/// The trades that were opened on a day. Closing is not counted, so that a limit
/// never keeps a position from being closed.
#[derive(Debug)]
pub struct DailyTrades {
    date: String,
    count: u32,
}

/// A day and the trades opened on it.
pub struct DayCount {
    pub date: Seq<char>,
    pub count: u32,
}

impl View for DailyTrades {
    type V = DayCount;

    closed spec fn view(&self) -> DayCount {
        DayCount { date: self.date@, count: self.count }
    }
}

/// The count on the day `today`: nothing yet where the day has changed.
pub open spec fn rolled(d: DayCount, today: Seq<char>) -> DayCount {
    if d.date == today {
        d
    } else {
        DayCount { date: today, count: 0 }
    }
}

impl DailyTrades {
    fn roll(&mut self, today: &str)
        ensures
            final(self)@ == rolled(old(self)@, today@),
    {
        if !same(self.date.as_str(), today) {
            self.date = today.to_owned();
            self.count = 0;
        }
    }

    /// Another trade may be opened today. A limit of zero allows any number.
    pub fn allows(&mut self, max: u32, today: &str) -> (r: bool)
        ensures
            final(self)@ == (if max == 0 {
                old(self)@
            } else {
                rolled(old(self)@, today@)
            }),
            r == (max == 0 || rolled(old(self)@, today@).count < max),
    {
        if max == 0 {
            return true;
        }
        self.roll(today);
        self.count < max
    }

    pub fn record(&mut self, today: &str)
        ensures
            final(self)@ == (DayCount {
                date: today@,
                count: (if rolled(old(self)@, today@).count < u32::MAX {
                    (rolled(old(self)@, today@).count + 1) as u32
                } else {
                    u32::MAX
                }),
            }),
    {
        self.roll(today);
        if self.count < u32::MAX {
            self.count = self.count + 1;
        }
    }

    pub fn count(&mut self, today: &str) -> (r: u32)
        ensures
            final(self)@ == rolled(old(self)@, today@),
            r == rolled(old(self)@, today@).count,
    {
        self.roll(today);
        self.count
    }
}

impl Default for DailyTrades {
    fn default() -> (r: DailyTrades)
        ensures
            r@.date == Seq::<char>::empty(),
            r@.count == 0,
    {
        DailyTrades { date: String::new(), count: 0 }
    }
}

/// A new day starts at zero, whatever the last one came to.
pub proof fn law_new_day_starts_at_zero(d: DayCount, today: Seq<char>)
    requires
        d.date != today,
    ensures
        rolled(d, today).count == 0,
{
}

#[derive(Clone, Copy, Debug, PartialEq, Eq, Structural)]
pub enum BalanceHealth {
    Healthy,
    /// Closing goes on, opening does not.
    Low,
    /// The venue's positions are to be closed.
    Critical,
}

/// How a balance stands to the two lines; a line of zero is off.
pub open spec fn health(available: Decimal, warn: Decimal, critical: Decimal) -> BalanceHealth {
    if critical.units() > 0 && available.units() < critical.units() {
        BalanceHealth::Critical
    } else if warn.units() > 0 && available.units() < warn.units() {
        BalanceHealth::Low
    } else {
        BalanceHealth::Healthy
    }
}

pub fn balance_health(available: Decimal, warn: Decimal, critical: Decimal) -> (r: BalanceHealth)
    ensures
        r == health(available, warn, critical),
{
    if critical.is_positive() && available < critical {
        return BalanceHealth::Critical;
    }
    if warn.is_positive() && available < warn {
        return BalanceHealth::Low;
    }
    BalanceHealth::Healthy
}

/// The seconds of `hours` hours, at most what 64 bits hold.
pub open spec fn hours_secs(hours: int) -> int {
    if hours * 3600 > u64::MAX {
        u64::MAX as int
    } else {
        hours * 3600
    }
}

/// A position has been held too long. Zero hours do not ask.
pub fn position_expired(held: Duration, max_hours: u64) -> (r: bool)
    ensures
        r == (max_hours > 0 && held.nanos as int / NANOS_PER_SEC as int >= hours_secs(
            max_hours as int,
        )),
{
    let limit: u128 = if max_hours as u128 * 3600 > u64::MAX as u128 {
        u64::MAX as u128
    } else {
        max_hours as u128 * 3600
    };
    max_hours > 0 && held.as_secs() >= limit
}

/// The most that positions may be worth when opened, in dollars. Zero is off.
#[derive(Clone, Copy, Debug)]
pub struct NotionalLimits {
    /// For one coin.
    pub per_symbol: Decimal,
    /// For all together.
    pub total: Decimal,
}

impl Default for NotionalLimits {
    fn default() -> (r: NotionalLimits)
        ensures
            r.per_symbol == lit(0, 0),
            r.total == lit(0, 0),
    {
        NotionalLimits { per_symbol: Decimal::zero(), total: Decimal::zero() }
    }
}

/// What is held, whatever its sign, and what is added pass a limit that is on.
pub open spec fn over_limit(held: Decimal, add: Decimal, limit: Decimal) -> Result<
    bool,
    ArithError,
> {
    if limit.units() > 0 {
        match sum(Ok(dabs(held)), Ok(dabs(add))) {
            Ok(s) => Ok(s.units() > limit.units()),
            Err(e) => Err(e),
        }
    } else {
        Ok(false)
    }
}

fn passes(held: Decimal, add: Decimal, limit: Decimal) -> (r: Result<bool, ArithError>)
    ensures
        r == over_limit(held, add, limit),
{
    if !limit.is_positive() {
        return Ok(false);
    }
    Ok(held.abs().plus(add.abs())? > limit)
}

/// What is said of a coin over its limit.
pub open spec fn symbol_limit_text(
    base: Seq<char>,
    held: Decimal,
    add: Decimal,
    limit: Decimal,
) -> Seq<char> {
    "单币名义超限: "@ + base + " "@ + text_of_decimal(dround(dabs(held), 2)) + " + "@
        + text_of_decimal(dround(dabs(add), 2)) + " > "@ + text_of_decimal(limit) + " USDC"@
}

/// What is said of all coins over their limit.
pub open spec fn total_limit_text(held: Decimal, add: Decimal, limit: Decimal) -> Seq<char> {
    "总名义超限: "@ + text_of_decimal(dround(dabs(held), 2)) + " + "@ + text_of_decimal(
        dround(dabs(add), 2),
    ) + " > "@ + text_of_decimal(limit) + " USDC"@
}

impl NotionalLimits {
    /// Adding `add_notional` to what is held keeps both limits; otherwise, what
    /// is said of the first that it does not keep.
    pub fn check(
        &self,
        base: &str,
        add_notional: Decimal,
        held_symbol: Decimal,
        held_total: Decimal,
    ) -> (r: Result<Result<(), String>, ArithError>)
        ensures
            match r {
                Err(_) => over_limit(held_symbol, add_notional, self.per_symbol) is Err || (
                over_limit(held_symbol, add_notional, self.per_symbol) == Ok::<bool, ArithError>(
                    false,
                ) && over_limit(held_total, add_notional, self.total) is Err),
                Ok(Ok(_)) => over_limit(held_symbol, add_notional, self.per_symbol) == Ok::<
                    bool,
                    ArithError,
                >(false) && over_limit(held_total, add_notional, self.total) == Ok::<
                    bool,
                    ArithError,
                >(false),
                Ok(Err(why)) => if over_limit(held_symbol, add_notional, self.per_symbol) == Ok::<
                    bool,
                    ArithError,
                >(true) {
                    why@ == symbol_limit_text(base@, held_symbol, add_notional, self.per_symbol)
                } else {
                    over_limit(held_symbol, add_notional, self.per_symbol) == Ok::<
                        bool,
                        ArithError,
                    >(false) && over_limit(held_total, add_notional, self.total) == Ok::<
                        bool,
                        ArithError,
                    >(true) && why@ == total_limit_text(held_total, add_notional, self.total)
                },
            },
    {
        if passes(held_symbol, add_notional, self.per_symbol)? {
            let mut why: String = "单币名义超限: ".to_owned();
            why.append(base);
            why.append(" ");
            why.append(held_symbol.abs().round_dp(2).text().as_str());
            why.append(" + ");
            why.append(add_notional.abs().round_dp(2).text().as_str());
            why.append(" > ");
            why.append(self.per_symbol.text().as_str());
            why.append(" USDC");
            return Ok(Err(why));
        }
        if passes(held_total, add_notional, self.total)? {
            let mut why: String = "总名义超限: ".to_owned();
            why.append(held_total.abs().round_dp(2).text().as_str());
            why.append(" + ");
            why.append(add_notional.abs().round_dp(2).text().as_str());
            why.append(" > ");
            why.append(self.total.text().as_str());
            why.append(" USDC");
            return Ok(Err(why));
        }
        Ok(Ok(()))
    }
}

/// The sign of what is held does not matter to a limit.
pub proof fn law_limit_ignores_sign(held: Decimal, add: Decimal, limit: Decimal)
    requires
        held.valid(),
    ensures
        over_limit(crate::decimal::dneg(held), add, limit) == over_limit(held, add, limit),
{
    broadcast use crate::decimal::lemma_lit;

}

/// A limit is passed where what is held and what is added, each without its sign, come to more
/// than it.
pub proof fn law_limit_is_on_what_is_held_and_added(held: Decimal, add: Decimal, limit: Decimal)
    requires
        held.valid(),
        add.valid(),
        adds_exactly(Ok(dabs(held)), Ok(dabs(add))),
    ensures
        over_limit(held, add, limit) == Ok::<bool, ArithError>(
            limit.units() > 0 && magnitude(held.units()) + magnitude(add.units())
                > limit.units(),
        ),
{
    lemma_size(held);
    lemma_size(add);
}

/// A balance that is critical under one line stays so as it falls, and one that is healthy
/// stays so as it rises; with both lines set and the lower one critical, it is critical exactly
/// below that, low between them, and healthy from the upper one on.
pub proof fn law_health_falls_with_the_balance(
    more: Decimal,
    less: Decimal,
    warn: Decimal,
    critical: Decimal,
)
    requires
        less.units() <= more.units(),
    ensures
        health(more, warn, critical) == BalanceHealth::Critical ==> health(less, warn, critical)
            == BalanceHealth::Critical,
        health(less, warn, critical) == BalanceHealth::Healthy ==> health(more, warn, critical)
            == BalanceHealth::Healthy,
        0 < critical.units() <= warn.units() ==> {
            &&& health(more, warn, critical) == BalanceHealth::Critical <==> more.units()
                < critical.units()
            &&& health(more, warn, critical) == BalanceHealth::Low <==> critical.units()
                <= more.units() < warn.units()
            &&& health(more, warn, critical) == BalanceHealth::Healthy <==> warn.units()
                <= more.units()
        },
        warn.units() <= 0 && critical.units() <= 0 ==> health(more, warn, critical)
            == BalanceHealth::Healthy,
{
}

} // verus!
