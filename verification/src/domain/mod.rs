//! Markets, books, spreads, grids and positions.

pub mod adjacent;
pub mod book;
pub mod funding;
pub mod grid;
pub mod position;
pub mod spread;
pub mod symbol;
pub mod window_grid;

pub use adjacent::{
    add_quote_far_enough, adjacent_quotes, implied_first_limit, limit_moved_ticks,
    quote_pending_key, AdjacentQuote, QuoteSide,
};
pub use book::{new_books, read_book, Bbo, BookMap};
pub use funding::{
    allows_open as funding_allows_open, funding_view, unfavorable_for_position, FundingExit,
    FundingView, VenueFunding,
};
pub use grid::{grid_step_from_target_bp, CloseReason, CloseView, GridParams, Intent};
pub use position::Position;
pub use spread::NetSpread;
pub use symbol::{
    is_cross_dex, match_all_pairs, match_pairs, slot_key, whitelist_allows, MarketKind, Pair,
    VenueId, VenueMarket,
};
pub use window_grid::{WindowGridEngine, WindowGridParams};
