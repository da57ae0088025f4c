//! What goes to a venue and what comes back.

use crate::config::OrderStyle;
use crate::decimal::{lit, Decimal};
use vstd::prelude::*;

verus! {

#[derive(Clone, Copy, Debug, PartialEq, Eq, Structural)]
pub enum OrderStatus {
    Accepted,
    Partial,
    Filled,
    Canceled,
    Rejected,
    /// Not among the resting orders, and whether it was filled is not known.
    Unknown,
}

#[derive(Debug)]
pub struct OrderReq {
    pub symbol: String,
    pub market_index: i32,
    pub is_buy: bool,
    pub qty: Decimal,
    pub reduce_only: bool,
    pub style: OrderStyle,
    /// The price of a resting order; a market order has none.
    pub limit_price: Option<Decimal>,
    pub client_order_id: Option<String>,
    /// The price at which the decision was made: slippage is measured from it.
    pub target_price: Option<Decimal>,
    /// The slippage that is allowed, in percent.
    pub slippage_pct: Option<Decimal>,
    /// How long a fill is waited for. Zero leaves it to the venue's side.
    pub fill_wait_ms: u64,
}

#[derive(Debug)]
pub struct OrderAck {
    pub order_id: String,
    pub client_order_id: Option<String>,
    pub filled_qty: Decimal,
    pub avg_price: Option<Decimal>,
    pub status: OrderStatus,
}

#[derive(Debug)]
pub struct CancelReq {
    pub order_id: String,
    pub symbol: String,
    pub market_index: i32,
    /// What was ordered, to tell a partial fill from a full one.
    pub qty: Option<Decimal>,
}

#[derive(Debug)]
pub struct VenuePosition {
    pub symbol: String,
    pub qty: Decimal,
    pub entry_price: Option<Decimal>,
    /// What the market has earned in all.
    pub realized_pnl: Option<Decimal>,
}

/// What a venue says that a close earned: for this fill, or for the market in
/// all.
#[derive(Clone, Copy, Debug)]
pub struct FillPnl {
    pub realized_pnl: Decimal,
    pub per_fill: bool,
    pub found: bool,
}

impl FillPnl {
    /// Nothing is known.
    pub fn missing() -> (r: FillPnl)
        ensures
            r.realized_pnl == lit(0, 0),
            !r.per_fill,
            !r.found,
    {
        FillPnl { realized_pnl: Decimal::zero(), per_fill: false, found: false }
    }
}

/// The present funding rate of a market, under the venue's own symbol.
#[derive(Debug)]
pub struct FundingRate {
    pub symbol: String,
    /// The rate per period as a fraction. Positive: longs pay.
    pub rate: Decimal,
    pub interval_secs: u32,
}

#[derive(Debug)]
pub struct Balance {
    pub asset: String,
    pub available: Decimal,
    pub total: Option<Decimal>,
}

#[derive(Debug)]
pub struct AccountSnapshot {
    pub balances: Vec<Balance>,
    pub positions: Vec<VenuePosition>,
}

impl Default for AccountSnapshot {
    fn default() -> (r: AccountSnapshot)
        ensures
            r.balances@.len() == 0,
            r.positions@.len() == 0,
    {
        AccountSnapshot { balances: Vec::new(), positions: Vec::new() }
    }
}

} // verus!
