//! Asking a venue whether it takes openings again.
//!
//! A pair that a venue lets only be closed stays so until it is asked: the
//! smallest quantity is bought and, if that went through, sold again at once.
//! Whether the venue takes openings is told by the first step alone. What could
//! not be sold again is told as well: it stands open and must be hedged.

use crate::decimal::{text_of_decimal, Decimal};
use crate::text::joined;
use vstd::prelude::*;

verus! {

/// How often the sale is tried.
pub const CLOSE_ATTEMPTS: u32 = 3;

#[derive(Debug)]
pub struct ProbeOutcome {
    /// The venue takes openings.
    pub success: bool,
    pub venue: String,
    pub detail: String,
    /// So much was bought and could not be sold again.
    pub naked_qty: Option<Decimal>,
}

/// What is done next.
#[derive(Clone, Copy, Debug)]
pub enum ProbeStep {
    /// Buy so much.
    Buy(Decimal),
    /// Sell so much again, for the given time.
    Sell(Decimal, u32),
    /// Nothing more.
    Finish,
}

/// A probe under way.
#[derive(Debug)]
pub struct Probe {
    pub step: ProbeStep,
    pub outcome: ProbeOutcome,
}

/// What a probe says once it is over.
pub open spec fn says(p: Probe, success: bool, venue: Seq<char>, detail: Seq<char>, naked: Option<Decimal>) -> bool {
    &&& p.outcome.success == success
    &&& p.outcome.venue@ == venue
    &&& p.outcome.detail@ == detail
    &&& p.outcome.naked_qty == naked
}

/// Starts a probe. Without a smallest quantity none is made: an order of a
/// guessed size is not sent.
pub fn start(venue: &str, min_qty: Decimal) -> (r: Probe)
    ensures
        if min_qty.units() > 0 {
            r.step == ProbeStep::Buy(min_qty) && says(r, false, venue@, ""@, None)
        } else {
            r.step == ProbeStep::Finish && says(
                r,
                false,
                venue@,
                "min_qty unknown; cannot probe"@,
                None,
            )
        },
{
    if min_qty.is_positive() {
        Probe {
            step: ProbeStep::Buy(min_qty),
            outcome: ProbeOutcome {
                success: false,
                venue: venue.to_owned(),
                detail: "".to_owned(),
                naked_qty: None,
            },
        }
    } else {
        Probe {
            step: ProbeStep::Finish,
            outcome: ProbeOutcome {
                success: false,
                venue: venue.to_owned(),
                detail: "min_qty unknown; cannot probe".to_owned(),
                naked_qty: None,
            },
        }
    }
}

/// The purchase was filled with a quantity, or failed.
pub fn bought(p: Probe, result: Result<Decimal, &str>) -> (r: Probe)
    ensures
        match result {
            Ok(qty) => r.step == ProbeStep::Sell(qty, 1) && says(
                r,
                true,
                p.outcome.venue@,
                "probe opened "@ + text_of_decimal(qty),
                None,
            ),
            Err(err) => r.step == ProbeStep::Finish && says(
                r,
                false,
                p.outcome.venue@,
                "probe open failed: "@ + err@,
                None,
            ),
        },
{
    match result {
        Ok(qty) => Probe {
            step: ProbeStep::Sell(qty, 1),
            outcome: ProbeOutcome {
                success: true,
                venue: p.outcome.venue,
                detail: joined("probe opened ", qty.text().as_str()),
                naked_qty: None,
            },
        },
        Err(err) => Probe {
            step: ProbeStep::Finish,
            outcome: ProbeOutcome {
                success: false,
                venue: p.outcome.venue,
                detail: joined("probe open failed: ", err),
                naked_qty: None,
            },
        },
    }
}

/// A sale was filled with a quantity, or failed: it is tried again, and what is
/// left after the last time stands open.
pub fn sold(p: Probe, opened: Decimal, attempt: u32, result: Result<Decimal, ()>) -> (r: Probe)
    requires
        p.step == ProbeStep::Sell(opened, attempt),
        1 <= attempt <= CLOSE_ATTEMPTS,
    ensures
        match result {
            Ok(qty) => r.step == ProbeStep::Finish && says(
                r,
                p.outcome.success,
                p.outcome.venue@,
                "probe ok; opened "@ + text_of_decimal(opened) + " closed "@ + text_of_decimal(qty),
                None,
            ),
            Err(_) => if attempt < CLOSE_ATTEMPTS {
                r.step == ProbeStep::Sell(opened, (attempt + 1) as u32) && r.outcome == p.outcome
            } else {
                r.step == ProbeStep::Finish && says(
                    r,
                    p.outcome.success,
                    p.outcome.venue@,
                    "probe opened "@ + text_of_decimal(opened) + " but close failed 3x; NAKED"@,
                    Some(opened),
                )
            },
        },
{
    match result {
        Ok(qty) => {
            let a = joined("probe ok; opened ", opened.text().as_str());
            let b = joined(a.as_str(), " closed ");
            Probe {
                step: ProbeStep::Finish,
                outcome: ProbeOutcome {
                    success: p.outcome.success,
                    venue: p.outcome.venue,
                    detail: joined(b.as_str(), qty.text().as_str()),
                    naked_qty: None,
                },
            }
        },
        Err(_) => {
            if attempt < CLOSE_ATTEMPTS {
                Probe { step: ProbeStep::Sell(opened, attempt + 1), outcome: p.outcome }
            } else {
                let a = joined("probe opened ", opened.text().as_str());
                Probe {
                    step: ProbeStep::Finish,
                    outcome: ProbeOutcome {
                        success: p.outcome.success,
                        venue: p.outcome.venue,
                        detail: joined(a.as_str(), " but close failed 3x; NAKED"),
                        naked_qty: Some(opened),
                    },
                }
            }
        },
    }
}

} // verus!
