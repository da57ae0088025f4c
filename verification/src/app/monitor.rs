//! The figures of a pair on the page.

use crate::app::pair_look::{seen_position, step_qty};
use crate::app::pair_step::{delta_of, fmt_step, live_delta, step_text};
use crate::app::window_spread::{
    live_of, slot_or_new, VenueSpreadBook, VenueSpreadModel, WindowBook, WindowModel,
};
use crate::config::AppConfig;
use crate::decimal::{diff, dround, lit, subtracts_exactly, ArithError, Decimal};
use crate::domain::position::Position;
use crate::domain::spread::NetSpread;
use crate::domain::symbol::Pair;
use vstd::prelude::*;

verus! {

/// The mean of a pair's window, or how full the window is.
#[derive(Clone, Copy, Debug)]
pub enum Centre {
    Known(Decimal),
    Sampling { n: usize, cap: usize },
}

/// What a row of the page shows.
#[derive(Debug)]
pub struct Figures {
    pub raw_pct: Decimal,
    pub net_pct: Decimal,
    pub fee_pct: Decimal,
    /// The spread that is usual between the venues.
    pub nat_pct: Option<Decimal>,
    /// What the spread is beyond the usual one.
    pub res_pct: Decimal,
    pub centre: Centre,
    /// How far the last spread is off the mean.
    pub dev_pct: Option<Decimal>,
    /// The width of a step.
    pub delta_pct: Decimal,
    pub grid: String,
    /// The quantity of a step.
    pub target_qty: Decimal,
    pub actual_qty: Decimal,
}

/// The last spread less the mean, where there are both.
pub open spec fn deviation(last: Option<Decimal>, mu: Option<Decimal>) -> Result<
    Option<Decimal>,
    ArithError,
> {
    match (last, mu) {
        (Some(s), Some(m)) => match diff(Ok(s), Ok(m)) {
            Ok(d) => Ok(Some(d)),
            Err(e) => Err(e),
        },
        _ => Ok(None),
    }
}

/// The figures are those of a slot.
pub open spec fn shows(
    r: Figures,
    cfg: AppConfig,
    w: WindowModel,
    v: VenueSpreadModel,
    pair: Pair,
    net: NetSpread,
    base_qty: Decimal,
    pos: Option<Position>,
    residual: Decimal,
    usual: Option<Decimal>,
) -> bool {
    let slot = pair.slot();
    let points = slot_or_new(w, slot).points.buf;
    &&& r.raw_pct == net.raw_pct
    &&& r.net_pct == net.net_pct
    &&& r.fee_pct == net.fee_pct
    &&& r.nat_pct == usual
    &&& r.res_pct == residual
    &&& match live_of(w, slot) {
        Ok(Some(mu)) => r.centre == Centre::Known(mu),
        Ok(None) => r.centre matches Centre::Sampling { n, cap } && n == points.len() && cap
            == w.cap,
        Err(_) => false,
    }
    &&& live_of(w, slot) matches Ok(mu) && deviation(
        if points.len() > 0 {
            Some(points.last())
        } else {
            None
        },
        mu,
    ) == Ok::<Option<Decimal>, ArithError>(r.dev_pct)
    &&& delta_of(cfg, v, pair) == Ok::<Decimal, ArithError>(r.delta_pct)
    &&& r.grid@ == step_text(
        match pos {
            Some(p) => p.grid as int,
            None => 0,
        },
    )
    &&& r.target_qty == step_qty(pos, base_qty)
    &&& r.actual_qty == (match pos {
        Some(p) => p.qty,
        None => lit(0, 0),
    })
}

/// A figure of the row is out of range.
pub open spec fn unshowable(cfg: AppConfig, w: WindowModel, v: VenueSpreadModel, pair: Pair) -> bool {
    let points = slot_or_new(w, pair.slot()).points.buf;
    ||| delta_of(cfg, v, pair) is Err
    ||| match live_of(w, pair.slot()) {
        Err(_) => true,
        Ok(mu) => deviation(
            if points.len() > 0 {
                Some(points.last())
            } else {
                None
            },
            mu,
        ) is Err,
    }
}

/// The figures of a pair. `base_qty` is the quantity of a step by the settings.
pub fn figures(
    cfg: &AppConfig,
    windows: &WindowBook,
    spreads: &VenueSpreadBook,
    pair: &Pair,
    net: &NetSpread,
    base_qty: Decimal,
    pos: Option<&Position>,
    residual: Decimal,
    usual: Option<Decimal>,
) -> (r: Result<Figures, ArithError>)
    ensures
        match r {
            Ok(f) => shows(
                f,
                *cfg,
                windows@,
                spreads@,
                *pair,
                *net,
                base_qty,
                seen_position(pos),
                residual,
                usual,
            ),
            Err(_) => unshowable(*cfg, windows@, spreads@, *pair),
        },
{
    let slot = pair.slot_key();
    let mu = windows.live_mu(slot.as_str())?;
    let centre = match mu {
        Some(m) => Centre::Known(m),
        None => Centre::Sampling { n: windows.sample_count(slot.as_str()), cap: windows.cap() },
    };
    let dev_pct = match (windows.last_s(slot.as_str()), mu) {
        (Some(s), Some(m)) => Some(s.minus(m)?),
        _ => None,
    };
    let delta_pct = live_delta(cfg, spreads, pair)?;
    let mut target_qty = base_qty;
    let mut actual_qty = Decimal::zero();
    let mut step: i32 = 0;
    if let Some(p) = pos {
        actual_qty = p.qty;
        step = p.grid;
        if p.base_qty.is_positive() {
            target_qty = p.base_qty;
        }
    }
    Ok(
        Figures {
            raw_pct: net.raw_pct,
            net_pct: net.net_pct,
            fee_pct: net.fee_pct,
            nat_pct: usual,
            res_pct: residual,
            centre,
            dev_pct,
            delta_pct,
            grid: fmt_step(step),
            target_qty,
            actual_qty,
        },
    )
}

/// What the spread is beyond the usual one, to six digits. Within one venue's family,
/// and while the usual one is not known, that is the spread itself.
pub fn residual(cross: bool, beyond: Option<Decimal>, net_pct: Decimal) -> (r: Decimal)
    ensures
        r == dround(
            if cross && beyond is Some {
                beyond->0
            } else {
                net_pct
            },
            6,
        ),
{
    match beyond {
        Some(b) => if cross {
            b.round_dp(6)
        } else {
            net_pct.round_dp(6)
        },
        None => net_pct.round_dp(6),
    }
}

/// How far the last spread is off the mean is above zero where it is above it.
pub proof fn law_deviation_is_the_last_spread_less_the_mean(last: Decimal, mu: Decimal)
    requires
        subtracts_exactly(Ok(last), Ok(mu)),
    ensures
        deviation(Some(last), Some(mu)) matches Ok(Some(d)) && d.units() == last.units()
            - mu.units(),
        deviation(None, Some(mu)) matches Ok(None),
        deviation(Some(last), None) matches Ok(None),
{
}

} // verus!
