//! Orders that a person places by hand, one venue at a time.

use crate::config::OrderStyle;
use crate::decimal::{decimal_of_text, Decimal};
use crate::domain::symbol::VenueMarket;
use crate::text::{same, same_but_case, same_ignoring_case, trim, trimmed};
use vstd::prelude::*;

verus! {

/// What a person asks for.
#[derive(Clone, Copy, Debug, PartialEq, Eq, Structural)]
pub enum Command {
    /// Balances and holdings.
    Account,
    Balance,
    Positions,
    /// An order, and of which style.
    Place(OrderStyle),
    Cancel,
    /// What was done before.
    Recap,
}

pub open spec fn command_named(word: Seq<char>) -> Option<Command> {
    if word == "account"@ {
        Some(Command::Account)
    } else if word == "balance"@ {
        Some(Command::Balance)
    } else if word == "positions"@ {
        Some(Command::Positions)
    } else if word == "market"@ {
        Some(Command::Place(OrderStyle::MarketTaker))
    } else if word == "limit"@ {
        Some(Command::Place(OrderStyle::LimitMaker))
    } else if word == "aggressive"@ {
        Some(Command::Place(OrderStyle::AggressiveLimit))
    } else if word == "cancel"@ {
        Some(Command::Cancel)
    } else if word == "recap"@ {
        Some(Command::Recap)
    } else {
        None
    }
}

pub fn command_of(word: &str) -> (r: Option<Command>)
    ensures
        r == command_named(word@),
{
    if same(word, "account") {
        Some(Command::Account)
    } else if same(word, "balance") {
        Some(Command::Balance)
    } else if same(word, "positions") {
        Some(Command::Positions)
    } else if same(word, "market") {
        Some(Command::Place(OrderStyle::MarketTaker))
    } else if same(word, "limit") {
        Some(Command::Place(OrderStyle::LimitMaker))
    } else if same(word, "aggressive") {
        Some(Command::Place(OrderStyle::AggressiveLimit))
    } else if same(word, "cancel") {
        Some(Command::Cancel)
    } else if same(word, "recap") {
        Some(Command::Recap)
    } else {
        None
    }
}

/// The largest quantity that may be placed by hand: what the environment says, where
/// that is a number, else the setting.
pub open spec fn hand_cap(set: Decimal, told: Option<Seq<char>>) -> Decimal {
    match told {
        Some(t) => match decimal_of_text(trimmed(t)) {
            Some(d) => d,
            None => set,
        },
        None => set,
    }
}

/// Refuses a quantity above the largest, and says which that is.
pub fn cap_qty(set: Decimal, told: Option<&str>, qty: Decimal) -> (r: Result<(), Decimal>)
    ensures
        ({
            let cap = hand_cap(
                set,
                match told {
                    Some(t) => Some(t@),
                    None => None,
                },
            );
            match r {
                Ok(_) => qty.units() <= cap.units(),
                Err(c) => qty.units() > cap.units() && c == cap,
            }
        }),
{
    let mut cap = set;
    if let Some(t) = told {
        if let Some(d) = Decimal::parse(trim(t)) {
            cap = d;
        }
    }
    if qty > cap {
        Err(cap)
    } else {
        Ok(())
    }
}

/// A market goes by its coin, and where `raw_too` by the venue's own name for it;
/// small letters and capitals are the same.
pub open spec fn goes_by(m: VenueMarket, symbol: Seq<char>, raw_too: bool) -> bool {
    same_ignoring_case(m.base@, symbol) || (raw_too && same_ignoring_case(m.raw_symbol@, symbol))
}

/// The first market that goes by `symbol`.
pub fn find_market(markets: &Vec<VenueMarket>, symbol: &str, raw_too: bool) -> (r: Option<usize>)
    ensures
        match r {
            Some(i) => i < markets@.len() && goes_by(markets@[i as int], symbol@, raw_too) && (
            forall|j: int| 0 <= j < i ==> !goes_by(#[trigger] markets@[j], symbol@, raw_too)),
            None => forall|j: int|
                0 <= j < markets@.len() ==> !goes_by(#[trigger] markets@[j], symbol@, raw_too),
        },
{
    let mut i: usize = 0;
    while i < markets.len()
        invariant
            i <= markets@.len(),
            forall|j: int| 0 <= j < i ==> !goes_by(#[trigger] markets@[j], symbol@, raw_too),
        decreases markets@.len() - i,
    {
        let m = &markets[i];
        if same_but_case(m.base.as_str(), symbol) || (raw_too && same_but_case(
            m.raw_symbol.as_str(),
            symbol,
        )) {
            return Some(i);
        }
        i = i + 1;
    }
    None
}

} // verus!
