//! The venues: their messages, their symbols and their files.

pub mod bridge;
pub mod entropy;
pub mod lighter;
pub mod net;
pub mod port;
pub mod sodex;
pub mod top;

pub use bridge::{last_lighter_place_rtt, last_place_rtt, LighterPlaceRtt, PlaceChainRtt};
pub use port::{
    AccountSnapshot, Balance, CancelReq, FillPnl, FundingRate, OrderAck, OrderReq, OrderStatus,
    VenuePosition,
};

use crate::config::{in_venue_dir, venue_path};
use crate::text::{ascii_upper, joined, same, to_ascii_upper};
use vstd::prelude::*;
use vstd::string::*;

verus! {

#[derive(Clone, Copy, Debug, PartialEq, Eq, Structural)]
pub enum AdapterKind {
    Sodex,
    Entropy,
    Lighter,
}

/// Which adapter serves a venue.
pub fn adapter_kind(venue_id: &str) -> (r: AdapterKind)
    ensures
        r == (if venue_id@ == "sodex"@ {
            AdapterKind::Sodex
        } else if venue_id@ == "entropy"@ {
            AdapterKind::Entropy
        } else {
            AdapterKind::Lighter
        }),
{
    if same(venue_id, "sodex") {
        AdapterKind::Sodex
    } else if same(venue_id, "entropy") {
        AdapterKind::Entropy
    } else {
        AdapterKind::Lighter
    }
}

/// The name of a venue's file.
pub open spec fn yaml_name(venue_id: Seq<char>) -> Seq<char> {
    if venue_id == "lighter_rh"@ {
        "lighter_robinhood.yaml"@
    } else {
        venue_id + ".yaml"@
    }
}

/// Where a venue's file lies.
pub open spec fn yaml_path(venue_id: Seq<char>) -> Seq<char> {
    venue_path(yaml_name(venue_id))
}

pub fn venue_yaml_path(venue_id: &str) -> (r: String)
    ensures
        r@ == yaml_path(venue_id@),
{
    let name = if same(venue_id, "lighter_rh") {
        "lighter_robinhood.yaml".to_owned()
    } else {
        joined(venue_id, ".yaml")
    };
    in_venue_dir(name)
}

/// The name under which a page shows a venue.
pub open spec fn display_label(id: Seq<char>) -> Seq<char> {
    if id == "lighter"@ {
        "Lighter 主网"@
    } else if id == "lighter_rh"@ {
        "Lighter RH"@
    } else if id == "sodex"@ {
        "SoDEX"@
    } else if id == "entropy"@ {
        "EntropyIO"@
    } else {
        ascii_upper(id.take(1)) + id.skip(1)
    }
}

pub fn venue_display_label(id: &str) -> (r: String)
    requires
        id@.len() > 0,
        (id@[0] as int) < 128,
    ensures
        r@ == display_label(id@),
{
    if same(id, "lighter") {
        "Lighter 主网".to_owned()
    } else if same(id, "lighter_rh") {
        "Lighter RH".to_owned()
    } else if same(id, "sodex") {
        "SoDEX".to_owned()
    } else if same(id, "entropy") {
        "EntropyIO".to_owned()
    } else {
        let n = id.unicode_len();
        let head = id.substring_char(0, 1);
        let tail = id.substring_char(1, n);
        proof {
            assert(head@ =~= id@.take(1));
            assert(tail@ =~= id@.skip(1));
        }
        joined(to_ascii_upper(head).as_str(), tail)
    }
}

} // verus!
