//! The switches and the settings that can be changed while the program runs.

use crate::config::{
    copy_settings, settings_model, AppConfig, ExecutionConfig, GridConfig, HistoryConfig,
    OrderConfig, PairDefaults, PairSetting, ScanConfig, SizingConfig, SystemConfig, CostConfig,
};
use crate::decimal::{dmax, lemma_lit, lit, pow10, whole, Decimal};
use crate::text::{joined, trim, trimmed};
use vstd::prelude::*;

verus! {

pub fn default_window_samples() -> (r: usize)
    ensures
        r == 1_000,
{
    1_000
}

pub fn default_scan_window_samples() -> (r: usize)
    ensures
        r == 120,
{
    120
}

pub fn default_sample_interval_ms() -> (r: u64)
    ensures
        r == 1000,
{
    1000
}

pub fn default_step_hysteresis() -> (r: Decimal)
    ensures
        r == lit(0, 0),
{
    Decimal::zero()
}

pub fn default_second_leg_verify_ms() -> (r: u64)
    ensures
        r == 2000,
{
    2000
}

/// All that can be changed while the program runs.
#[derive(Debug)]
pub struct ArbitrageParams {
    /// The venues that are traded on.
    pub active_venues: Vec<String>,
    /// The venues that are scanned. Apart from the others: what is scanned is
    /// not thereby traded on.
    pub scan_venues: Vec<String>,
    pub data_freshness_ms: u64,
    pub pair_defaults: PairDefaults,
    pub pairs: Vec<PairSetting>,
    pub loop_interval_ms: u64,
    pub hedge_failed_legs: bool,
    pub leverage_multiplier: Decimal,
    pub depth_pct: Decimal,
    pub refresh_balance_secs: u64,
    pub margin_utilization_pct: Decimal,
    pub fallback_available_usdc: Decimal,
    pub scan_enabled: bool,
    pub analysis_interval_ms: u64,
    pub watch_top: u32,
    pub scan_window_samples: usize,
    pub persistence_ms: u64,
    pub persistence_min_hits: u32,
    pub window_samples: usize,
    pub sample_interval_ms: u64,
    pub step_hysteresis: Decimal,
    pub limit_timeout_ms: u64,
    pub second_leg_verify_ms: u64,
    pub maker_inside_ticks: u32,
    pub limit_retry_count: u32,
    pub default_slip_pct: Decimal,
    pub max_slippage_pct: Decimal,
    pub emergency_slippage_multiplier: Decimal,
    pub history_min_points: u32,
}

pub open spec fn at_least(n: int, low: int) -> int {
    if n < low {
        low
    } else {
        n
    }
}

/// `p` is what a configuration says. No venue is chosen: the configured venues
/// are only those that are connected to.
pub open spec fn is_from(p: ArbitrageParams, cfg: AppConfig) -> bool {
    &&& p.active_venues@.len() == 0
    &&& p.scan_venues@.len() == 0
    &&& p.data_freshness_ms == cfg.system.data_freshness_ms
    &&& p.pair_defaults == cfg.pairs.defaults
    &&& settings_model(p.pairs@) == settings_model(cfg.pairs.enabled@)
    &&& p.loop_interval_ms == cfg.execution.loop_interval_ms
    &&& p.hedge_failed_legs == cfg.execution.hedge_failed_legs
    &&& p.leverage_multiplier == cfg.sizing.leverage_multiplier
    &&& p.depth_pct == cfg.sizing.depth_pct
    &&& p.refresh_balance_secs == cfg.sizing.refresh_balance_secs
    &&& p.margin_utilization_pct == cfg.sizing.margin_utilization_pct
    &&& p.fallback_available_usdc == (match cfg.sizing.fallback_available_usdc {
        Some(f) => f,
        None => lit(0, 0),
    })
    &&& p.scan_enabled == cfg.scan.enabled
    &&& p.analysis_interval_ms == cfg.scan.analysis_interval_ms
    &&& p.watch_top == cfg.scan.watch_top as u32
    &&& p.scan_window_samples == at_least(cfg.scan.window_samples as int, 10)
    &&& p.persistence_ms == cfg.grid.persistence_ms
    &&& p.persistence_min_hits == cfg.grid.persistence_min_hits
    &&& p.window_samples == cfg.grid.window_samples
    &&& p.sample_interval_ms == cfg.grid.sample_interval_ms
    &&& p.step_hysteresis == cfg.grid.step_hysteresis
    &&& p.limit_timeout_ms == cfg.order.limit_timeout_ms
    &&& p.second_leg_verify_ms == cfg.order.second_leg_verify_ms
    &&& p.maker_inside_ticks == cfg.order.maker_inside_ticks
    &&& p.limit_retry_count == cfg.order.limit_retry_count
    &&& p.default_slip_pct == cfg.cost.default_slip_pct
    &&& p.max_slippage_pct == cfg.cost.max_slippage_pct
    &&& p.emergency_slippage_multiplier == cfg.cost.emergency_slippage_multiplier
    &&& p.history_min_points == cfg.history.min_points as u32
}

/// `after` is `before` with the settings put in. Fees, keys and the list of
/// venues stay as they are.
pub open spec fn is_applied(p: ArbitrageParams, before: AppConfig, after: AppConfig) -> bool {
    &&& after.system == (SystemConfig { data_freshness_ms: p.data_freshness_ms, ..before.system })
    &&& after.pairs.defaults == p.pair_defaults
    &&& settings_model(after.pairs.enabled@) == settings_model(p.pairs@)
    &&& after.pairs.whitelist == before.pairs.whitelist
    &&& after.execution == (ExecutionConfig {
        loop_interval_ms: p.loop_interval_ms,
        hedge_failed_legs: p.hedge_failed_legs,
        ..before.execution
    })
    &&& after.sizing == (SizingConfig {
        leverage_multiplier: p.leverage_multiplier,
        depth_pct: p.depth_pct,
        refresh_balance_secs: p.refresh_balance_secs,
        margin_utilization_pct: p.margin_utilization_pct,
        fallback_available_usdc: if p.fallback_available_usdc.units() > 0 {
            Some(p.fallback_available_usdc)
        } else {
            None
        },
        ..before.sizing
    })
    &&& after.scan == (ScanConfig {
        enabled: p.scan_enabled,
        analysis_interval_ms: p.analysis_interval_ms,
        watch_top: p.watch_top as usize,
        window_samples: at_least(p.scan_window_samples as int, 10) as usize,
        min_volume_24h_usdc: if before.scan.min_volume_24h_usdc.units() <= 0 {
            lit(10_000_000, 0)
        } else {
            before.scan.min_volume_24h_usdc
        },
        ..before.scan
    })
    &&& after.grid == (GridConfig {
        persistence_ms: p.persistence_ms,
        persistence_min_hits: p.persistence_min_hits,
        window_samples: at_least(p.window_samples as int, 1) as usize,
        sample_interval_ms: at_least(p.sample_interval_ms as int, 1) as u64,
        step_hysteresis: dmax(p.step_hysteresis, lit(0, 0)),
        ..before.grid
    })
    &&& after.order == (OrderConfig {
        limit_timeout_ms: p.limit_timeout_ms,
        second_leg_verify_ms: p.second_leg_verify_ms,
        maker_inside_ticks: p.maker_inside_ticks,
        limit_retry_count: at_least(p.limit_retry_count as int, 1) as u32,
        ..before.order
    })
    &&& after.cost == (CostConfig {
        default_slip_pct: p.default_slip_pct,
        max_slippage_pct: p.max_slippage_pct,
        emergency_slippage_multiplier: p.emergency_slippage_multiplier,
    })
    &&& after.history == (HistoryConfig {
        min_points: at_least(p.history_min_points as int, 1) as usize,
        ..before.history
    })
    &&& after.venues == before.venues
    &&& after.live_test == before.live_test
    &&& after.http == before.http
    &&& after.risk == before.risk
    &&& after.burst == before.burst
    &&& after.venue_fees == before.venue_fees
}

impl ArbitrageParams {
    pub fn from_config(cfg: &AppConfig) -> (r: ArbitrageParams)
        ensures
            is_from(r, *cfg),
    {
        ArbitrageParams {
            active_venues: Vec::new(),
            scan_venues: Vec::new(),
            data_freshness_ms: cfg.system.data_freshness_ms,
            pair_defaults: cfg.pairs.defaults,
            pairs: copy_settings(&cfg.pairs.enabled),
            loop_interval_ms: cfg.execution.loop_interval_ms,
            hedge_failed_legs: cfg.execution.hedge_failed_legs,
            leverage_multiplier: cfg.sizing.leverage_multiplier,
            depth_pct: cfg.sizing.depth_pct,
            refresh_balance_secs: cfg.sizing.refresh_balance_secs,
            margin_utilization_pct: cfg.sizing.margin_utilization_pct,
            fallback_available_usdc: match cfg.sizing.fallback_available_usdc {
                Some(f) => f,
                None => Decimal::zero(),
            },
            scan_enabled: cfg.scan.enabled,
            analysis_interval_ms: cfg.scan.analysis_interval_ms,
            watch_top: cfg.scan.watch_top as u32,
            scan_window_samples: if cfg.scan.window_samples < 10 {
                10
            } else {
                cfg.scan.window_samples
            },
            persistence_ms: cfg.grid.persistence_ms,
            persistence_min_hits: cfg.grid.persistence_min_hits,
            window_samples: cfg.grid.window_samples,
            sample_interval_ms: cfg.grid.sample_interval_ms,
            step_hysteresis: cfg.grid.step_hysteresis,
            limit_timeout_ms: cfg.order.limit_timeout_ms,
            second_leg_verify_ms: cfg.order.second_leg_verify_ms,
            maker_inside_ticks: cfg.order.maker_inside_ticks,
            limit_retry_count: cfg.order.limit_retry_count,
            default_slip_pct: cfg.cost.default_slip_pct,
            max_slippage_pct: cfg.cost.max_slippage_pct,
            emergency_slippage_multiplier: cfg.cost.emergency_slippage_multiplier,
            history_min_points: cfg.history.min_points as u32,
        }
    }

    /// Puts the settings into a configuration.
    pub fn apply_to(&self, cfg: &mut AppConfig)
        ensures
            is_applied(*self, *old(cfg), *final(cfg)),
    {
        cfg.system.data_freshness_ms = self.data_freshness_ms;
        cfg.pairs.defaults = self.pair_defaults;
        cfg.pairs.enabled = copy_settings(&self.pairs);
        cfg.execution.loop_interval_ms = self.loop_interval_ms;
        cfg.execution.hedge_failed_legs = self.hedge_failed_legs;
        cfg.sizing.leverage_multiplier = self.leverage_multiplier;
        cfg.sizing.depth_pct = self.depth_pct;
        cfg.sizing.refresh_balance_secs = self.refresh_balance_secs;
        cfg.sizing.margin_utilization_pct = self.margin_utilization_pct;
        cfg.sizing.fallback_available_usdc = if self.fallback_available_usdc.is_positive() {
            Some(self.fallback_available_usdc)
        } else {
            None
        };
        cfg.scan.enabled = self.scan_enabled;
        cfg.scan.analysis_interval_ms = self.analysis_interval_ms;
        cfg.scan.watch_top = self.watch_top as usize;
        cfg.scan.window_samples = if self.scan_window_samples < 10 {
            10
        } else {
            self.scan_window_samples
        };
        if !cfg.scan.min_volume_24h_usdc.is_positive() {
            cfg.scan.min_volume_24h_usdc = Decimal::from_int(10_000_000);
        }
        cfg.grid.persistence_ms = self.persistence_ms;
        cfg.grid.persistence_min_hits = self.persistence_min_hits;
        cfg.grid.window_samples = if self.window_samples < 1 {
            1
        } else {
            self.window_samples
        };
        cfg.grid.sample_interval_ms = if self.sample_interval_ms < 1 {
            1
        } else {
            self.sample_interval_ms
        };
        cfg.grid.step_hysteresis = self.step_hysteresis.max(Decimal::zero());
        cfg.order.limit_timeout_ms = self.limit_timeout_ms;
        cfg.order.second_leg_verify_ms = self.second_leg_verify_ms;
        cfg.order.maker_inside_ticks = self.maker_inside_ticks;
        cfg.order.limit_retry_count = if self.limit_retry_count < 1 {
            1
        } else {
            self.limit_retry_count
        };
        cfg.cost.default_slip_pct = self.default_slip_pct;
        cfg.cost.max_slippage_pct = self.max_slippage_pct;
        cfg.cost.emergency_slippage_multiplier = self.emergency_slippage_multiplier;
        cfg.history.min_points = if self.history_min_points < 1 {
            1
        } else {
            self.history_min_points as usize
        };
    }
}

/// Whether settings can be used, and what is wrong with them.
#[derive(Debug)]
pub struct ValidationResult {
    pub ok: bool,
    pub errors: Vec<String>,
}

/// A message where something is wrong.
pub open spec fn if_wrong(wrong: bool, message: Seq<char>) -> Seq<Seq<char>> {
    if wrong {
        seq![message]
    } else {
        Seq::empty()
    }
}

/// What is wrong with the settings of a pair.
pub open spec fn pair_errors(s: PairSetting) -> Seq<Seq<char>> {
    if_wrong(trimmed(s.symbol@).len() == 0, "pairs.symbol 不能为空"@) + if_wrong(
        s.base_qty.units() <= 0,
        s.symbol@ + " base_qty 必须 > 0"@,
    ) + if_wrong(s.max_segments == Some(0u32), s.symbol@ + " max_segments 必须 >= 1"@) + if_wrong(
        s.target_bp is Some && s.target_bp->0.units() <= 0,
        s.symbol@ + " target_bp 必须 > 0"@,
    )
}

/// What is wrong with the settings of some pairs.
pub open spec fn pairs_errors(s: Seq<PairSetting>) -> Seq<Seq<char>>
    decreases s.len(),
{
    if s.len() == 0 {
        Seq::empty()
    } else {
        pairs_errors(s.drop_last()) + pair_errors(s.last())
    }
}

/// What is wrong with the settings that are not those of a pair.
pub open spec fn general_errors(p: ArbitrageParams) -> Seq<Seq<char>> {
    if_wrong(p.pair_defaults.target_bp.units() <= 0, "pair_defaults.target_bp 必须 > 0"@)
        + if_wrong(p.pair_defaults.max_segments == 0, "pair_defaults.max_segments 必须 >= 1"@)
        + if_wrong(p.window_samples == 0, "window_samples 必须 >= 1"@) + if_wrong(
        p.scan_window_samples < 10,
        "scan_window_samples 必须 >= 10"@,
    ) + if_wrong(p.sample_interval_ms == 0, "sample_interval_ms 必须 >= 1"@) + if_wrong(
        p.step_hysteresis.units() < 0,
        "step_hysteresis 不能为负"@,
    ) + if_wrong(
        p.step_hysteresis.units() >= lit(5, 1).units(),
        "step_hysteresis 必须 < 0.5，否则一格锁不住价差"@,
    ) + if_wrong(p.leverage_multiplier.units() <= 0, "leverage_multiplier 必须 > 0"@)
}

/// What is wrong with the settings.
pub open spec fn setting_errors(p: ArbitrageParams) -> Seq<Seq<char>> {
    general_errors(p) + pairs_errors(p.pairs@)
}

/// The texts of some messages.
pub open spec fn message_texts(s: Seq<String>) -> Seq<Seq<char>> {
    s.map_values(|t: String| t@)
}

fn say_if(errors: &mut Vec<String>, wrong: bool, message: &str)
    ensures
        message_texts(final(errors)@) == message_texts(old(errors)@) + if_wrong(wrong, message@),
{
    let ghost before = errors@;
    if wrong {
        errors.push(message.to_owned());
    }
    proof {
        assert(message_texts(errors@) =~= message_texts(before) + if_wrong(wrong, message@));
    }
}

fn say_pair_errors(errors: &mut Vec<String>, s: &PairSetting)
    ensures
        message_texts(final(errors)@) == message_texts(old(errors)@) + pair_errors(*s),
{
    let ghost before = message_texts(errors@);
    let symbol = s.symbol.as_str();
    let no_segments = match s.max_segments {
        Some(n) => n == 0,
        None => false,
    };
    let no_target = match s.target_bp {
        Some(t) => !t.is_positive(),
        None => false,
    };
    say_if(errors, blank(symbol), "pairs.symbol 不能为空");
    say_if(errors, !s.base_qty.is_positive(), joined(symbol, " base_qty 必须 > 0").as_str());
    say_if(errors, no_segments, joined(symbol, " max_segments 必须 >= 1").as_str());
    say_if(errors, no_target, joined(symbol, " target_bp 必须 > 0").as_str());
    proof {
        assert(message_texts(errors@) =~= before + pair_errors(*s));
    }
}

fn say_pairs_errors(errors: &mut Vec<String>, pairs: &Vec<PairSetting>)
    ensures
        message_texts(final(errors)@) == message_texts(old(errors)@) + pairs_errors(pairs@),
{
    let ghost start = message_texts(errors@);
    let mut i: usize = 0;
    proof {
        assert(pairs@.take(0) =~= Seq::empty());
        assert(start + pairs_errors(pairs@.take(0)) =~= start);
    }
    while i < pairs.len()
        invariant
            i <= pairs@.len(),
            message_texts(errors@) == start + pairs_errors(pairs@.take(i as int)),
        decreases pairs.len() - i,
    {
        say_pair_errors(errors, &pairs[i]);
        proof {
            assert(pairs@.take(i + 1).drop_last() =~= pairs@.take(i as int));
            assert(message_texts(errors@) =~= start + pairs_errors(pairs@.take(i + 1)));
        }
        i = i + 1;
    }
    proof {
        assert(pairs@.take(i as int) =~= pairs@);
    }
}

fn blank(s: &str) -> (r: bool)
    ensures
        r == (trimmed(s@).len() == 0),
{
    crate::text::chars_of(trim(s)).len() == 0
}

/// Holds settings to what can be traded with.
pub fn validate(p: &ArbitrageParams) -> (r: ValidationResult)
    ensures
        message_texts(r.errors@) == setting_errors(*p),
        r.ok == (setting_errors(*p).len() == 0),
{
    let mut errors: Vec<String> = Vec::new();
    say_if(
        &mut errors,
        !p.pair_defaults.target_bp.is_positive(),
        "pair_defaults.target_bp 必须 > 0",
    );
    say_if(
        &mut errors,
        p.pair_defaults.max_segments == 0,
        "pair_defaults.max_segments 必须 >= 1",
    );
    say_if(&mut errors, p.window_samples == 0, "window_samples 必须 >= 1");
    say_if(&mut errors, p.scan_window_samples < 10, "scan_window_samples 必须 >= 10");
    say_if(&mut errors, p.sample_interval_ms == 0, "sample_interval_ms 必须 >= 1");
    say_if(&mut errors, p.step_hysteresis < Decimal::zero(), "step_hysteresis 不能为负");
    say_if(
        &mut errors,
        p.step_hysteresis >= Decimal::new(5, 1),
        "step_hysteresis 必须 < 0.5，否则一格锁不住价差",
    );
    say_if(&mut errors, !p.leverage_multiplier.is_positive(), "leverage_multiplier 必须 > 0");
    proof {
        assert(message_texts(errors@) =~= general_errors(*p));
    }
    say_pairs_errors(&mut errors, &p.pairs);
    proof {
        assert(message_texts(errors@).len() == errors@.len());
    }
    let ok = errors.len() == 0;
    ValidationResult { ok, errors }
}

/// What a page can switch: trading, scanning, and the settings.
#[derive(Debug)]
pub struct ArbitrageControl {
    pub enabled: bool,
    /// The markets of the chosen venues are to be matched anew.
    pub rematch: bool,
    /// The same for the venues that are scanned.
    pub rematch_scan: bool,
    pub scan_running: bool,
    pub params: ArbitrageParams,
}

impl ArbitrageControl {
    pub fn new(cfg: &AppConfig) -> (r: ArbitrageControl)
        ensures
            !r.enabled,
            !r.rematch,
            !r.rematch_scan,
            !r.scan_running,
            is_from(r.params, *cfg),
    {
        ArbitrageControl {
            enabled: false,
            rematch: false,
            rematch_scan: false,
            scan_running: false,
            params: ArbitrageParams::from_config(cfg),
        }
    }
}

/// What a configuration says, put back into it, changes nothing of how it
/// trades, where its numbers are in range.
pub proof fn law_settings_round_trip(p: ArbitrageParams, cfg: AppConfig, after: AppConfig)
    requires
        is_from(p, cfg),
        is_applied(p, cfg, after),
        cfg.scan.window_samples >= 10,
        cfg.scan.watch_top <= u32::MAX,
        cfg.scan.min_volume_24h_usdc.units() > 0,
        cfg.grid.window_samples >= 1,
        cfg.grid.sample_interval_ms >= 1,
        cfg.grid.step_hysteresis.units() >= 0,
        cfg.order.limit_retry_count >= 1,
        1 <= cfg.history.min_points <= u32::MAX,
        cfg.sizing.fallback_available_usdc matches Some(f) ==> f.units() > 0,
    ensures
        after.system == cfg.system,
        after.pairs.defaults == cfg.pairs.defaults,
        settings_model(after.pairs.enabled@) == settings_model(cfg.pairs.enabled@),
        after.execution == cfg.execution,
        after.sizing == cfg.sizing,
        after.scan == cfg.scan,
        after.grid == cfg.grid,
        after.order == cfg.order,
        after.cost == cfg.cost,
        after.history == cfg.history,
{
    broadcast use crate::decimal::lemma_lit, crate::decimal::lemma_sign;

    assert(lit(0, 0).units() == 0);
}

/// Settings are taken only with every amount and number in its range, and settings with
/// every one in its range are taken.
pub proof fn law_settings_are_taken_within_their_ranges(p: ArbitrageParams)
    ensures
        setting_errors(p).len() == 0 <==> {
            &&& p.pair_defaults.target_bp.units() > 0
            &&& p.pair_defaults.max_segments >= 1
            &&& p.window_samples >= 1
            &&& p.scan_window_samples >= 10
            &&& p.sample_interval_ms >= 1
            &&& 0 <= 2 * p.step_hysteresis.units() < whole()
            &&& p.leverage_multiplier.units() > 0
            &&& forall|i: int|
                0 <= i < p.pairs@.len() ==> setting_in_range(#[trigger] p.pairs@[i])
        },
{
    lemma_general_errors(p);
    lemma_pairs_errors(p.pairs@);
    assert(setting_errors(p).len() == general_errors(p).len() + pairs_errors(p.pairs@).len());
    assert forall|i: int| 0 <= i < p.pairs@.len() implies (pair_errors(
        #[trigger] p.pairs@[i],
    ).len() == 0 <==> setting_in_range(p.pairs@[i])) by {
        lemma_pair_errors(p.pairs@[i]);
    }
    if pairs_errors(p.pairs@).len() == 0 {
        assert forall|i: int| 0 <= i < p.pairs@.len() implies setting_in_range(
            #[trigger] p.pairs@[i],
        ) by {
            assert(pair_errors(p.pairs@[i]).len() == 0);
        }
    }
}

proof fn lemma_general_errors(p: ArbitrageParams)
    ensures
        general_errors(p).len() == 0 <==> {
            &&& p.pair_defaults.target_bp.units() > 0
            &&& p.pair_defaults.max_segments >= 1
            &&& p.window_samples >= 1
            &&& p.scan_window_samples >= 10
            &&& p.sample_interval_ms >= 1
            &&& 0 <= 2 * p.step_hysteresis.units() < whole()
            &&& p.leverage_multiplier.units() > 0
        },
{
    lemma_half_of_one();
    let half = lit(5, 1).units();
    let step = p.step_hysteresis.units();
    let a = if_wrong(
        p.pair_defaults.target_bp.units() <= 0,
        "pair_defaults.target_bp 必须 > 0"@,
    );
    let b = if_wrong(
        p.pair_defaults.max_segments == 0,
        "pair_defaults.max_segments 必须 >= 1"@,
    );
    let c = if_wrong(p.window_samples == 0, "window_samples 必须 >= 1"@);
    let d = if_wrong(p.scan_window_samples < 10, "scan_window_samples 必须 >= 10"@);
    let e = if_wrong(p.sample_interval_ms == 0, "sample_interval_ms 必须 >= 1"@);
    let f = if_wrong(step < 0, "step_hysteresis 不能为负"@);
    let g = if_wrong(
        step >= half,
        "step_hysteresis 必须 < 0.5，否则一格锁不住价差"@,
    );
    let h = if_wrong(p.leverage_multiplier.units() <= 0, "leverage_multiplier 必须 > 0"@);
    assert(general_errors(p) == a + b + c + d + e + f + g + h);
    assert((a + b + c + d + e + f + g + h).len() == a.len() + b.len() + c.len() + d.len()
        + e.len() + f.len() + g.len() + h.len());
}

/// The amounts and numbers of a pair are in their ranges.
pub open spec fn setting_in_range(s: PairSetting) -> bool {
    &&& trimmed(s.symbol@).len() > 0
    &&& s.base_qty.units() > 0
    &&& (s.max_segments matches Some(n) ==> n >= 1)
    &&& (s.target_bp matches Some(t) ==> t.units() > 0)
}

proof fn lemma_pair_errors(s: PairSetting)
    ensures
        pair_errors(s).len() == 0 <==> setting_in_range(s),
{
    let no_segments = s.max_segments == Some(0u32);
    let no_target = s.target_bp is Some && s.target_bp->0.units() <= 0;
    let a = if_wrong(trimmed(s.symbol@).len() == 0, "pairs.symbol 不能为空"@);
    let b = if_wrong(s.base_qty.units() <= 0, s.symbol@ + " base_qty 必须 > 0"@);
    let c = if_wrong(no_segments, s.symbol@ + " max_segments 必须 >= 1"@);
    let d = if_wrong(no_target, s.symbol@ + " target_bp 必须 > 0"@);
    assert(pair_errors(s).len() == a.len() + b.len() + c.len() + d.len());
    match s.max_segments {
        None => {},
        Some(n) => {
            assert(no_segments <==> n == 0);
        },
    }
}

proof fn lemma_half_of_one()
    ensures
        2 * lit(5, 1).units() == whole(),
{
    broadcast use lemma_lit;

    reveal(Decimal::units);
    reveal(whole);
    assert(pow10(28) == 10 * pow10(27));
    assert(lit(5, 1).units() == 5 * pow10(27));
}

proof fn lemma_pairs_errors(s: Seq<PairSetting>)
    ensures
        pairs_errors(s).len() == 0 <==> forall|i: int|
            0 <= i < s.len() ==> pair_errors(#[trigger] s[i]).len() == 0,
    decreases s.len(),
{
    if s.len() > 0 {
        let t = s.drop_last();
        lemma_pairs_errors(t);
        assert(s[s.len() - 1] == s.last());
        if pairs_errors(s).len() == 0 {
            assert forall|i: int| 0 <= i < s.len() implies pair_errors(
                #[trigger] s[i],
            ).len() == 0 by {
                if i < t.len() {
                    assert(pair_errors(t[i]).len() == 0);
                }
            }
        } else if pairs_errors(t).len() > 0 {
            let i = choose|i: int| 0 <= i < t.len() && pair_errors(#[trigger] t[i]).len() != 0;
            assert(pair_errors(s[i]).len() != 0);
        }
    }
}

} // verus!
