//! What the program is set to.

use crate::clock::{millis, Duration};
use crate::decimal::{
    adds_exactly, lemma_adds_exactly, lemma_whole, lemma_whole_number, lit, multiplies_exactly,
    prod, sum, sums_exactly, value, whole, ArithError, Calc, Decimal,
};
use crate::domain::grid::{grid_step, grid_step_from_target_bp, GridParams};
use crate::domain::symbol::VenueId;
use crate::keymap::KeyMap;
use crate::text::{
    has_prefix, joined, law_trimming_twice, parse_i64, same, same_but_case, same_ignoring_case,
    signed_of, starts_with, trim, trimmed,
};
use vstd::prelude::*;

verus! {

/// Everything that can be set.
pub struct AppConfig {
    pub system: SystemConfig,
    pub venues: Vec<String>,
    pub pairs: PairsConfig,
    pub grid: GridConfig,
    pub order: OrderConfig,
    pub cost: CostConfig,
    pub history: HistoryConfig,
    pub scan: ScanConfig,
    pub execution: ExecutionConfig,
    pub sizing: SizingConfig,
    pub live_test: LiveTestConfig,
    pub http: HttpConfig,
    pub risk: RiskConfig,
    pub burst: BurstConfig,
    /// The fees of each venue, from the venues' own files.
    pub venue_fees: KeyMap<VenueFees>,
}

#[derive(Debug)]
pub struct HttpConfig {
    pub enabled: bool,
    pub bind: String,
    pub web_root: String,
    /// Where set, requests must carry it.
    pub auth_token: Option<String>,
}

pub fn default_http_bind() -> (r: String)
    ensures
        r@ == "0.0.0.0:8090"@,
{
    "0.0.0.0:8090".to_owned()
}

pub fn default_web_root() -> (r: String)
    ensures
        r@ == "web/dist"@,
{
    "web/dist".to_owned()
}

pub fn default_http() -> (r: HttpConfig)
    ensures
        !r.enabled,
        r.bind@ == "0.0.0.0:8090"@,
        r.web_root@ == "web/dist"@,
        r.auth_token is None,
{
    HttpConfig {
        enabled: false,
        bind: default_http_bind(),
        web_root: default_web_root(),
        auth_token: None,
    }
}

#[derive(Debug)]
pub struct LiveTestConfig {
    /// Orders are capped at `max_qty`.
    pub dex_test_mode: bool,
    pub max_qty: Decimal,
    pub journal_path: Option<String>,
}

pub fn default_live_test_max_qty() -> (r: Decimal)
    ensures
        r == lit(1, 3),
{
    Decimal::new(1, 3)
}

pub fn default_live_test_journal() -> (r: Option<String>)
    ensures
        r matches Some(p) && p@ == "data/executions.sqlite"@,
{
    Some("data/executions.sqlite".to_owned())
}

pub fn default_live_test() -> (r: LiveTestConfig)
    ensures
        !r.dex_test_mode,
        r.max_qty == lit(1, 3),
        r.journal_path matches Some(p) && p@ == "data/executions.sqlite"@,
{
    LiveTestConfig {
        dex_test_mode: false,
        max_qty: default_live_test_max_qty(),
        journal_path: default_live_test_journal(),
    }
}

#[derive(Clone, Copy, Debug, PartialEq, Eq, Structural)]
pub struct ExecutionConfig {
    pub enabled: bool,
    pub loop_interval_ms: u64,
    /// Legs that failed are made up for on the other venue.
    pub hedge_failed_legs: bool,
}

pub fn default_loop_interval_ms() -> (r: u64)
    ensures
        r == 100,
{
    100
}

pub fn default_execution() -> (r: ExecutionConfig)
    ensures
        r == (ExecutionConfig { enabled: false, loop_interval_ms: 100, hedge_failed_legs: true }),
{
    ExecutionConfig { enabled: false, loop_interval_ms: 100, hedge_failed_legs: true }
}

pub struct SizingConfig {
    pub leverage_multiplier: Decimal,
    pub depth_pct: Decimal,
    pub refresh_balance_secs: u64,
    /// What a venue is taken to hold while it reports nothing.
    pub fallback_available_usdc: Option<Decimal>,
    /// How much of the margin may be used, in percent.
    pub margin_utilization_pct: Decimal,
    /// Below this balance on a venue its positions are closed. Zero does not
    /// ask.
    pub balance_floor_usdc: Decimal,
    /// Venues with a leverage of their own.
    pub leverage_by_venue: KeyMap<Decimal>,
}

pub fn default_margin_utilization_pct() -> (r: Decimal)
    ensures
        r == lit(90, 0),
{
    Decimal::from_int(90)
}

pub fn default_leverage() -> (r: Decimal)
    ensures
        r == lit(5, 0),
{
    Decimal::from_int(5)
}

pub fn default_depth_pct() -> (r: Decimal)
    ensures
        r == lit(50, 0),
{
    Decimal::from_int(50)
}

pub fn default_refresh_balance_secs() -> (r: u64)
    ensures
        r == 1,
{
    1
}

pub fn default_sizing() -> (r: SizingConfig)
    ensures
        r.leverage_multiplier == lit(5, 0),
        r.depth_pct == lit(50, 0),
        r.refresh_balance_secs == 1,
        r.fallback_available_usdc is None,
        r.margin_utilization_pct == lit(90, 0),
        r.balance_floor_usdc == lit(0, 0),
        r.leverage_by_venue@ == Map::<Seq<char>, Decimal>::empty(),
{
    SizingConfig {
        leverage_multiplier: default_leverage(),
        depth_pct: default_depth_pct(),
        refresh_balance_secs: default_refresh_balance_secs(),
        fallback_available_usdc: None,
        margin_utilization_pct: default_margin_utilization_pct(),
        balance_floor_usdc: Decimal::zero(),
        leverage_by_venue: KeyMap::new(),
    }
}

/// How markets are scanned.
#[derive(Clone, Copy, Debug)]
pub struct ScanConfig {
    pub enabled: bool,
    pub analysis_interval_ms: u64,
    pub watch_top: usize,
    /// A pair is scored once it has this many points.
    pub window_samples: usize,
    /// Zero stands for the larger of four times `watch_top` and forty.
    pub candidate_cap: usize,
    pub max_own_spread_pct: Decimal,
    pub min_level_notional_usdc: Decimal,
    pub min_volume_24h_usdc: Decimal,
    pub coarse_refresh_secs: u64,
}

pub fn default_scan() -> (r: ScanConfig)
    ensures
        !r.enabled,
        r.analysis_interval_ms == 50,
        r.watch_top == 20,
        r.window_samples == 60,
        r.candidate_cap == 0,
        r.max_own_spread_pct == lit(15, 2),
        r.min_level_notional_usdc == lit(200, 0),
        r.min_volume_24h_usdc == lit(10_000_000, 0),
        r.coarse_refresh_secs == 60,
{
    ScanConfig {
        enabled: false,
        analysis_interval_ms: 50,
        watch_top: 20,
        window_samples: default_scan_window_samples(),
        candidate_cap: 0,
        max_own_spread_pct: default_max_own_spread_pct(),
        min_level_notional_usdc: default_min_level_notional(),
        min_volume_24h_usdc: default_min_volume_24h(),
        coarse_refresh_secs: default_coarse_refresh_secs(),
    }
}

pub fn default_scan_window_samples() -> (r: usize)
    ensures
        r == 60,
{
    60
}

pub fn default_max_own_spread_pct() -> (r: Decimal)
    ensures
        r == lit(15, 2),
{
    Decimal::new(15, 2)
}

pub fn default_min_level_notional() -> (r: Decimal)
    ensures
        r == lit(200, 0),
{
    Decimal::from_int(200)
}

pub fn default_min_volume_24h() -> (r: Decimal)
    ensures
        r == lit(10_000_000, 0),
{
    Decimal::from_int(10_000_000)
}

pub fn default_coarse_refresh_secs() -> (r: u64)
    ensures
        r == 60,
{
    60
}

#[derive(Debug)]
pub struct SystemConfig {
    pub data_freshness_ms: u64,
    /// Where the log files go; empty writes none.
    pub log_dir: String,
}

pub fn default_log_dir() -> (r: String)
    ensures
        r@ == "data/logs"@,
{
    "data/logs".to_owned()
}

#[derive(Debug)]
pub struct PairsConfig {
    pub defaults: PairDefaults,
    pub enabled: Vec<PairSetting>,
    /// The coins that may be traded at all; an empty list allows every coin.
    pub whitelist: Vec<String>,
}

pub fn default_target_bp() -> (r: Decimal)
    ensures
        r == lit(1, 0),
{
    Decimal::one()
}

/// What holds for a pair that does not say otherwise.
#[derive(Clone, Copy, Debug)]
pub struct PairDefaults {
    pub max_segments: u32,
    /// What a step is to earn, in hundredths of a percent.
    pub target_bp: Decimal,
    pub split_order_size: Decimal,
}

impl Default for PairDefaults {
    fn default() -> (r: PairDefaults)
        ensures
            r.max_segments == 3,
            r.target_bp == lit(1, 0),
            r.split_order_size == lit(0, 0),
    {
        PairDefaults {
            max_segments: 3,
            target_bp: default_target_bp(),
            split_order_size: Decimal::zero(),
        }
    }
}

/// What a pair says for two venues of its own, named in either order.
#[derive(Debug)]
pub struct PairOverride {
    pub venues: Vec<String>,
    pub max_segments: Option<u32>,
    pub target_bp: Option<Decimal>,
    pub split_order_size: Option<Decimal>,
}

#[derive(Debug)]
pub struct PairSetting {
    pub symbol: String,
    /// The coins of one step.
    pub base_qty: Decimal,
    pub max_segments: Option<u32>,
    pub target_bp: Option<Decimal>,
    pub split_order_size: Option<Decimal>,
    pub overrides: Vec<PairOverride>,
}

/// An override, its texts as sequences.
pub struct OverrideModel {
    pub venues: Seq<Seq<char>>,
    pub max_segments: Option<u32>,
    pub target_bp: Option<Decimal>,
    pub split_order_size: Option<Decimal>,
}

/// A setting, its texts as sequences.
pub struct SettingModel {
    pub symbol: Seq<char>,
    pub base_qty: Decimal,
    pub max_segments: Option<u32>,
    pub target_bp: Option<Decimal>,
    pub split_order_size: Option<Decimal>,
    pub overrides: Seq<OverrideModel>,
}

pub open spec fn texts(s: Seq<String>) -> Seq<Seq<char>> {
    s.map_values(|t: String| t@)
}

/// A list of texts copied.
pub fn copy_texts(v: &Vec<String>) -> (r: Vec<String>)
    ensures
        r@ == v@,
{
    let mut out: Vec<String> = Vec::new();
    let mut i: usize = 0;
    while i < v.len()
        invariant
            i <= v@.len(),
            out@.len() == i,
            forall|k: int| 0 <= k < i ==> #[trigger] out@[k] == v@[k],
        decreases v.len() - i,
    {
        out.push(v[i].clone());
        i = i + 1;
    }
    proof {
        assert(out@ =~= v@);
    }
    out
}

impl PairOverride {
    pub open spec fn model(self) -> OverrideModel {
        OverrideModel {
            venues: texts(self.venues@),
            max_segments: self.max_segments,
            target_bp: self.target_bp,
            split_order_size: self.split_order_size,
        }
    }

    /// The override is for these two venues, in either order and whatever case.
    pub open spec fn is_for(self, a: Seq<char>, b: Seq<char>) -> bool {
        let v = self.venues@;
        &&& v.len() == 2
        &&& (same_ignoring_case(v[0]@, a) && same_ignoring_case(v[1]@, b)) || (
        same_ignoring_case(v[0]@, b) && same_ignoring_case(v[1]@, a))
    }
}

impl Clone for PairOverride {
    fn clone(&self) -> (r: PairOverride)
        ensures
            r.model() == self.model(),
    {
        PairOverride {
            venues: copy_texts(&self.venues),
            max_segments: self.max_segments,
            target_bp: self.target_bp,
            split_order_size: self.split_order_size,
        }
    }
}

/// Where the first override for two venues stands, or their number.
pub open spec fn override_at(s: Seq<PairOverride>, a: Seq<char>, b: Seq<char>) -> int
    decreases s.len(),
{
    if s.len() == 0 || s[0].is_for(a, b) {
        0
    } else {
        1 + override_at(s.drop_first(), a, b)
    }
}

proof fn lemma_override_at(s: Seq<PairOverride>, a: Seq<char>, b: Seq<char>)
    ensures
        0 <= override_at(s, a, b) <= s.len(),
    decreases s.len(),
{
    if s.len() > 0 && !s[0].is_for(a, b) {
        lemma_override_at(s.drop_first(), a, b);
    }
}

impl PairSetting {
    pub open spec fn model(self) -> SettingModel {
        SettingModel {
            symbol: self.symbol@,
            base_qty: self.base_qty,
            max_segments: self.max_segments,
            target_bp: self.target_bp,
            split_order_size: self.split_order_size,
            overrides: self.overrides@.map_values(|o: PairOverride| o.model()),
        }
    }

    /// What the setting says for two venues.
    pub open spec fn overriding(self, a: Seq<char>, b: Seq<char>) -> Option<PairOverride> {
        let i = override_at(self.overrides@, a, b);
        if i < self.overrides@.len() {
            Some(self.overrides@[i])
        } else {
            None
        }
    }

    pub fn override_for(&self, a: &str, b: &str) -> (r: Option<&PairOverride>)
        ensures
            match r {
                Some(o) => self.overriding(a@, b@) == Some(*o),
                None => self.overriding(a@, b@) is None,
            },
    {
        let ghost s = self.overrides@;
        let mut i: usize = 0;
        proof {
            assert(s.skip(0) =~= s);
            lemma_override_at(s, a@, b@);
        }
        while i < self.overrides.len()
            invariant
                s == self.overrides@,
                i <= s.len(),
                override_at(s, a@, b@) == i + override_at(s.skip(i as int), a@, b@),
            decreases self.overrides.len() - i,
        {
            let o = &self.overrides[i];
            if o.venues.len() == 2 {
                let x = o.venues[0].as_str();
                let y = o.venues[1].as_str();
                if (same_but_case(x, a) && same_but_case(y, b)) || (same_but_case(x, b)
                    && same_but_case(y, a)) {
                    return Some(o);
                }
            }
            proof {
                assert(s.skip(i as int).drop_first() =~= s.skip(i + 1));
            }
            i = i + 1;
        }
        None
    }
}

impl Clone for PairSetting {
    fn clone(&self) -> (r: PairSetting)
        ensures
            r.model() == self.model(),
    {
        let mut overrides: Vec<PairOverride> = Vec::new();
        let mut i: usize = 0;
        while i < self.overrides.len()
            invariant
                i <= self.overrides@.len(),
                overrides@.len() == i,
                forall|k: int|
                    0 <= k < i ==> (#[trigger] overrides@[k]).model()
                        == self.overrides@[k].model(),
            decreases self.overrides.len() - i,
        {
            overrides.push(self.overrides[i].clone());
            i = i + 1;
        }
        let r = PairSetting {
            symbol: self.symbol.clone(),
            base_qty: self.base_qty,
            max_segments: self.max_segments,
            target_bp: self.target_bp,
            split_order_size: self.split_order_size,
            overrides,
        };
        proof {
            assert(r.model().overrides =~= self.model().overrides);
        }
        r
    }
}

pub open spec fn settings_model(s: Seq<PairSetting>) -> Seq<SettingModel> {
    s.map_values(|p: PairSetting| p.model())
}

/// A list of settings copied.
pub fn copy_settings(v: &Vec<PairSetting>) -> (r: Vec<PairSetting>)
    ensures
        settings_model(r@) == settings_model(v@),
{
    let mut out: Vec<PairSetting> = Vec::new();
    let mut i: usize = 0;
    while i < v.len()
        invariant
            i <= v@.len(),
            out@.len() == i,
            forall|k: int| 0 <= k < i ==> (#[trigger] out@[k]).model() == v@[k].model(),
        decreases v.len() - i,
    {
        out.push(v[i].clone());
        i = i + 1;
    }
    proof {
        assert(settings_model(out@) =~= settings_model(v@));
    }
    out
}

#[derive(Clone, Copy, Debug)]
pub struct GridConfig {
    pub persistence_ms: u64,
    /// How often a line must be met within the window. Zero asks that it be met
    /// all the time.
    pub persistence_min_hits: u32,
    /// The mean is known once this many points are.
    pub window_samples: usize,
    pub sample_interval_ms: u64,
    /// How far inside a line, in steps, the step changes.
    pub step_hysteresis: Decimal,
    /// Resting orders on the neighbouring lines, or two market orders on the
    /// line.
    pub symmetric_limit: bool,
    /// How long a position may be held, in seconds. Zero does not ask.
    pub max_hold_secs: u64,
    /// How far, in steps, the mean must move before a resting order does.
    pub quote_reprice_ratio: Decimal,
    /// How far, in steps, an order that adds must stay off the spread.
    pub min_quote_gap_ratio: Decimal,
}

pub fn default_window_samples() -> (r: usize)
    ensures
        r == 10_000,
{
    10_000
}

pub fn default_sample_interval_ms() -> (r: u64)
    ensures
        r == 1000,
{
    1000
}

pub fn default_step_hysteresis() -> (r: Decimal)
    ensures
        r == lit(25, 2),
{
    Decimal::new(25, 2)
}

pub fn default_quote_reprice_ratio() -> (r: Decimal)
    ensures
        r == lit(2, 1),
{
    Decimal::new(2, 1)
}

pub fn default_min_quote_gap_ratio() -> (r: Decimal)
    ensures
        r == lit(3, 1),
{
    Decimal::new(3, 1)
}

#[derive(Clone, Copy, Debug, PartialEq, Eq, Structural)]
pub struct OrderConfig {
    pub limit_timeout_ms: u64,
    /// How long a first leg on a neighbouring line lives. Zero leaves it to
    /// events.
    pub adjacent_timeout_ms: u64,
    /// How long the second leg is asked after.
    pub second_leg_verify_ms: u64,
    /// How many ticks inside the spread the first leg stands.
    pub maker_inside_ticks: u32,
    pub limit_retry_count: u32,
    /// How long a fill of an order that does not rest is waited for.
    pub ioc_fill_wait_ms: u64,
}

/// `x` brought between `lo` and `hi`.
pub open spec fn within(x: int, lo: int, hi: int) -> int {
    if x < lo {
        lo
    } else if x > hi {
        hi
    } else {
        x
    }
}

impl OrderConfig {
    /// Between a tenth of a second and half a minute.
    pub fn ioc_fill_wait(&self) -> (r: Duration)
        ensures
            r.nanos == millis(within(self.ioc_fill_wait_ms as int, 100, 30_000)),
    {
        Duration::from_millis(self.ioc_fill_wait_ms_clamped())
    }

    pub fn ioc_fill_wait_ms_clamped(&self) -> (r: u64)
        ensures
            r == within(self.ioc_fill_wait_ms as int, 100, 30_000),
    {
        if self.ioc_fill_wait_ms < 100 {
            100
        } else if self.ioc_fill_wait_ms > 30_000 {
            30_000
        } else {
            self.ioc_fill_wait_ms
        }
    }
}

pub fn default_limit_timeout_ms() -> (r: u64)
    ensures
        r == 2000,
{
    2000
}

pub fn default_ioc_fill_wait_ms() -> (r: u64)
    ensures
        r == 1000,
{
    1000
}

pub fn default_maker_inside_ticks() -> (r: u32)
    ensures
        r == 1,
{
    1
}

pub fn default_limit_retry_count() -> (r: u32)
    ensures
        r == 3,
{
    3
}

#[derive(Clone, Copy, Debug, PartialEq, Eq, Structural)]
pub enum OrderStyle {
    LimitMaker,
    MarketTaker,
    /// A limit on the venue whose fee for taking is higher, then a market order
    /// on the other.
    LimitThenMarket,
    /// A limit deep in the other side that is filled at once or not at all.
    AggressiveLimit,
}

impl OrderStyle {
    pub open spec fn word(self) -> Seq<char> {
        match self {
            OrderStyle::LimitMaker => "limit_maker"@,
            OrderStyle::MarketTaker => "market_taker"@,
            OrderStyle::LimitThenMarket => "limit_then_market"@,
            OrderStyle::AggressiveLimit => "aggressive_limit"@,
        }
    }

    pub fn as_str(self) -> (r: &'static str)
        ensures
            r@ == self.word(),
    {
        match self {
            OrderStyle::LimitMaker => "limit_maker",
            OrderStyle::MarketTaker => "market_taker",
            OrderStyle::LimitThenMarket => "limit_then_market",
            OrderStyle::AggressiveLimit => "aggressive_limit",
        }
    }

    /// The order does not rest: it is filled or it is gone.
    pub fn is_ioc(self) -> (r: bool)
        ensures
            r == (self == OrderStyle::MarketTaker || self == OrderStyle::AggressiveLimit),
    {
        match self {
            OrderStyle::MarketTaker => true,
            OrderStyle::AggressiveLimit => true,
            _ => false,
        }
    }
}

#[derive(Clone, Copy, Debug)]
pub struct RiskConfig {
    /// How wide a venue's own spread may be, in percent. Zero does not ask.
    pub max_venue_spread_pct: Decimal,
}

/// Filling a position in several rounds.
#[derive(Clone, Copy, Debug, PartialEq, Eq, Structural)]
pub struct BurstConfig {
    pub enabled: bool,
    /// How many rounds open before it is closed again.
    pub open_repeats: u32,
}

#[derive(Clone, Copy, Debug)]
pub struct CostConfig {
    pub default_slip_pct: Decimal,
    /// How far off the price of the decision a market order may be filled, in
    /// percent.
    pub max_slippage_pct: Decimal,
    /// How many times further when a position must be closed.
    pub emergency_slippage_multiplier: Decimal,
}

pub fn default_max_slippage_pct() -> (r: Decimal)
    ensures
        r == lit(1, 1),
{
    Decimal::new(1, 1)
}

pub fn default_emergency_slip_mult() -> (r: Decimal)
    ensures
        r == lit(50, 0),
{
    Decimal::from_int(50)
}

pub fn default_true() -> (r: bool)
    ensures
        r,
{
    true
}

pub fn default_history_sample_interval_secs() -> (r: u64)
    ensures
        r == 5,
{
    5
}

pub fn default_history_window_hours() -> (r: u64)
    ensures
        r == 24,
{
    24
}

pub fn default_refresh_interval_secs() -> (r: u64)
    ensures
        r == 1800,
{
    1800
}

#[derive(Debug)]
pub struct HistoryConfig {
    pub enabled: bool,
    pub db_path: String,
    pub sample_interval_secs: u64,
    pub window_hours: u64,
    pub min_points: usize,
    pub max_age_secs: u64,
    pub refresh_interval_secs: u64,
}

#[derive(Clone, Copy, Debug)]
pub struct VenueFees {
    pub maker: Decimal,
    pub taker: Decimal,
}

/// The file of a venue.
pub struct VenueFile {
    pub id: String,
    pub rest: String,
    pub ws: String,
    pub chain_id: u64,
    pub quote: String,
    pub fees: VenueFees,
    pub account_index: i64,
    pub api_key_index: i32,
    pub api_key_name: String,
    pub account_address: String,
    pub api_key_private_key: String,
}

/// What signing takes.
pub struct VenueAuth {
    pub account_index: i64,
    pub api_key_index: i32,
    pub api_key_name: String,
    pub api_key_private_key: String,
}

/// A key that is there and is more than the prefix of one.
pub open spec fn key_given(key: Seq<char>) -> bool {
    trimmed(key).len() > 0 && trimmed(key) != "0x"@
}

impl VenueFile {
    /// The venue can be signed for.
    pub open spec fn ready(self) -> bool {
        key_given(self.api_key_private_key@) && (self.id@ == "sodex"@ ==> trimmed(
            self.api_key_name@,
        ).len() > 0)
    }

    pub fn auth(&self) -> (r: Option<VenueAuth>)
        ensures
            r is Some <==> key_given(self.api_key_private_key@),
            r matches Some(a) ==> {
                &&& a.account_index == self.account_index
                &&& a.api_key_index == self.api_key_index
                &&& a.api_key_name@ == trimmed(self.api_key_name@)
                &&& a.api_key_private_key@ == trimmed(self.api_key_private_key@)
            },
    {
        let key = trim(self.api_key_private_key.as_str());
        if key.unicode_len() == 0 || same(key, "0x") {
            return None;
        }
        Some(
            VenueAuth {
                account_index: self.account_index,
                api_key_index: self.api_key_index,
                api_key_name: trim(self.api_key_name.as_str()).to_owned(),
                api_key_private_key: key.to_owned(),
            },
        )
    }

    pub fn keys_ready(&self) -> (r: bool)
        ensures
            r == self.ready(),
    {
        proof {
            law_trimming_twice(self.api_key_private_key@);
        }
        match self.auth() {
            None => false,
            Some(auth) => {
                if same(self.id.as_str(), "sodex") {
                    return auth.is_ready() && auth.api_key_name.as_str().unicode_len() > 0;
                }
                auth.is_ready()
            },
        }
    }
}

impl VenueAuth {
    pub fn is_ready(&self) -> (r: bool)
        ensures
            r == key_given(self.api_key_private_key@),
    {
        let key = trim(self.api_key_private_key.as_str());
        key.unicode_len() > 0 && !same(key, "0x")
    }
}

// ---------------------------------------------------------------------------
// What follows from the settings
// ---------------------------------------------------------------------------

/// Where the first setting of a coin stands, or their number.
pub open spec fn setting_at(s: Seq<PairSetting>, symbol: Seq<char>) -> int
    decreases s.len(),
{
    if s.len() == 0 || same_ignoring_case(s[0].symbol@, symbol) {
        0
    } else {
        1 + setting_at(s.drop_first(), symbol)
    }
}

proof fn lemma_setting_at(s: Seq<PairSetting>, symbol: Seq<char>)
    ensures
        0 <= setting_at(s, symbol) <= s.len(),
    decreases s.len(),
{
    if s.len() > 0 && !same_ignoring_case(s[0].symbol@, symbol) {
        lemma_setting_at(s.drop_first(), symbol);
    }
}

/// The first of three that is there.
pub open spec fn pick<T>(a: Option<T>, b: Option<T>, c: T) -> T {
    match a {
        Some(x) => x,
        None => match b {
            Some(x) => x,
            None => c,
        },
    }
}

fn picked<T: Copy>(a: Option<T>, b: Option<T>, c: T) -> (r: T)
    ensures
        r == pick(a, b, c),
{
    match a {
        Some(x) => x,
        None => match b {
            Some(x) => x,
            None => c,
        },
    }
}

impl AppConfig {
    /// The setting of a coin.
    pub open spec fn setting(self, symbol: Seq<char>) -> Option<PairSetting> {
        let i = setting_at(self.pairs.enabled@, symbol);
        if i < self.pairs.enabled@.len() {
            Some(self.pairs.enabled@[i])
        } else {
            None
        }
    }

    /// The fee for taking on a venue; none is known for a venue without a file.
    pub open spec fn taker(self, venue: Seq<char>) -> Decimal {
        if self.venue_fees@.contains_key(venue) {
            self.venue_fees@[venue].taker
        } else {
            lit(0, 0)
        }
    }

    /// The fee for making on a venue.
    pub open spec fn maker(self, venue: Seq<char>) -> Decimal {
        if self.venue_fees@.contains_key(venue) {
            self.venue_fees@[venue].maker
        } else {
            lit(0, 0)
        }
    }

    /// The fees of a round trip: both legs, in and out.
    pub open spec fn round_trip_taker(self, a: Seq<char>, b: Seq<char>) -> Calc {
        prod(sum(Ok(self.taker(a)), Ok(self.taker(b))), Ok(lit(2, 0)))
    }

    /// What a step of a coin on two venues is to earn.
    pub open spec fn target_of(self, symbol: Seq<char>, a: Seq<char>, b: Seq<char>) -> Decimal {
        match self.setting(symbol) {
            None => self.pairs.defaults.target_bp,
            Some(s) => pick(
                match s.overriding(a, b) {
                    Some(o) => o.target_bp,
                    None => None,
                },
                s.target_bp,
                self.pairs.defaults.target_bp,
            ),
        }
    }

    /// The width of a step with the venues' own spreads left out.
    pub open spec fn static_step(self, symbol: Seq<char>, a: Seq<char>, b: Seq<char>) -> Calc {
        match self.round_trip_taker(a, b) {
            Ok(rt) => grid_step(
                self.target_of(symbol, a, b),
                rt,
                lit(0, 0),
                self.grid.step_hysteresis,
            ),
            Err(e) => Err(e),
        }
    }

    /// The grid of a coin on two venues; none for a coin without a setting.
    pub open spec fn grid_of(
        self,
        symbol: Seq<char>,
        a: Seq<char>,
        b: Seq<char>,
        min_qty: Decimal,
    ) -> Result<Option<GridParams>, ArithError> {
        match self.setting(symbol) {
            None => Ok(None),
            Some(s) => match self.static_step(symbol, a, b) {
                Err(e) => Err(e),
                Ok(step) => {
                    let o = s.overriding(a, b);
                    Ok(
                        Some(
                            GridParams {
                                base_qty: s.base_qty,
                                step,
                                max_segments: pick(
                                    match o {
                                        Some(x) => x.max_segments,
                                        None => None,
                                    },
                                    s.max_segments,
                                    self.pairs.defaults.max_segments,
                                ),
                                split_order_size: pick(
                                    match o {
                                        Some(x) => x.split_order_size,
                                        None => None,
                                    },
                                    s.split_order_size,
                                    self.pairs.defaults.split_order_size,
                                ),
                                min_qty,
                                persistence: Duration {
                                    nanos: millis(self.grid.persistence_ms as int) as u128,
                                },
                                persistence_min_hits: self.grid.persistence_min_hits,
                            },
                        ),
                    )
                },
            },
        }
    }

    /// The grid of a coin on two venues. `min_qty` is the larger of the legs'
    /// smallest quantities.
    pub fn grid_for(&self, symbol: &str, venue_a: &str, venue_b: &str, min_qty: Decimal) -> (r:
        Result<Option<GridParams>, ArithError>)
        ensures
            r == self.grid_of(symbol@, venue_a@, venue_b@, min_qty),
    {
        let s = match self.pair_setting(symbol) {
            None => {
                return Ok(None);
            },
            Some(s) => s,
        };
        let step = self.delta_from_target(symbol, venue_a, venue_b)?;
        let (segments, split) = match s.override_for(venue_a, venue_b) {
            Some(o) => (o.max_segments, o.split_order_size),
            None => (None, None),
        };
        Ok(
            Some(
                GridParams {
                    base_qty: s.base_qty,
                    step,
                    max_segments: picked(
                        segments,
                        s.max_segments,
                        self.pairs.defaults.max_segments,
                    ),
                    split_order_size: picked(
                        split,
                        s.split_order_size,
                        self.pairs.defaults.split_order_size,
                    ),
                    min_qty,
                    persistence: Duration::from_millis(self.grid.persistence_ms),
                    persistence_min_hits: self.grid.persistence_min_hits,
                },
            ),
        )
    }

    /// The fees of two market orders in and two out.
    pub fn market_round_trip_taker(&self, a: &VenueId, b: &VenueId) -> (r: Calc)
        ensures
            r == self.round_trip_taker(a.0@, b.0@),
    {
        self.taker_fee(a).plus(self.taker_fee(b))?.times(Decimal::from_int(2))
    }

    pub fn target_bp_for(&self, symbol: &str, venue_a: &str, venue_b: &str) -> (r: Decimal)
        ensures
            r == self.target_of(symbol@, venue_a@, venue_b@),
    {
        match self.pair_setting(symbol) {
            None => self.pairs.defaults.target_bp,
            Some(s) => {
                let own = match s.override_for(venue_a, venue_b) {
                    Some(o) => o.target_bp,
                    None => None,
                };
                picked(own, s.target_bp, self.pairs.defaults.target_bp)
            },
        }
    }

    fn delta_from_target(&self, symbol: &str, venue_a: &str, venue_b: &str) -> (r: Calc)
        ensures
            r == self.static_step(symbol@, venue_a@, venue_b@),
    {
        let target = self.target_bp_for(symbol, venue_a, venue_b);
        let a = VenueId::named(venue_a);
        let b = VenueId::named(venue_b);
        let rt = self.market_round_trip_taker(&a, &b)?;
        grid_step_from_target_bp(target, rt, Decimal::zero(), self.grid.step_hysteresis)
    }

    pub fn pair_setting(&self, symbol: &str) -> (r: Option<&PairSetting>)
        ensures
            match r {
                Some(s) => self.setting(symbol@) == Some(*s),
                None => self.setting(symbol@) is None,
            },
    {
        let ghost s = self.pairs.enabled@;
        let mut i: usize = 0;
        proof {
            assert(s.skip(0) =~= s);
            lemma_setting_at(s, symbol@);
        }
        while i < self.pairs.enabled.len()
            invariant
                s == self.pairs.enabled@,
                i <= s.len(),
                setting_at(s, symbol@) == i + setting_at(s.skip(i as int), symbol@),
            decreases self.pairs.enabled.len() - i,
        {
            if same_but_case(self.pairs.enabled[i].symbol.as_str(), symbol) {
                return Some(&self.pairs.enabled[i]);
            }
            proof {
                assert(s.skip(i as int).drop_first() =~= s.skip(i + 1));
            }
            i = i + 1;
        }
        None
    }

    /// The fees of one order on each venue.
    pub fn round_leg_fee(&self, a: &VenueId, b: &VenueId) -> (r: Calc)
        ensures
            r == sum(Ok(self.taker(a.0@)), Ok(self.taker(b.0@))),
            // What both venues take together.
            sums_exactly(self.taker(a.0@), self.taker(b.0@)) ==> r is Ok && r->Ok_0.units()
                == self.taker(a.0@).units() + self.taker(b.0@).units(),
    {
        let x = self.taker_fee(a);
        let y = self.taker_fee(b);
        let r = x.plus(y);
        proof {
            if sums_exactly(x, y) {
                lemma_adds_exactly(x, y);
            }
        }
        r
    }

    /// Takes the venues' fees over, in place of those that were known.
    pub fn hydrate_fees(&mut self, fees: Vec<(String, VenueFees)>)
        ensures
            final(self).venue_fees@ == fees_of(fees@),
            final(self).venues == old(self).venues,
            final(self).pairs == old(self).pairs,
            final(self).grid == old(self).grid,
            final(self).sizing == old(self).sizing,
            final(self).system == old(self).system,
            final(self).order == old(self).order,
            final(self).cost == old(self).cost,
            final(self).history == old(self).history,
            final(self).scan == old(self).scan,
            final(self).execution == old(self).execution,
            final(self).live_test == old(self).live_test,
            final(self).http == old(self).http,
            final(self).risk == old(self).risk,
            final(self).burst == old(self).burst,
    {
        let mut map: KeyMap<VenueFees> = KeyMap::new();
        let mut i: usize = 0;
        proof {
            assert(fees@.take(0) =~= Seq::empty());
        }
        while i < fees.len()
            invariant
                i <= fees@.len(),
                map@ == fees_of(fees@.take(i as int)),
            decreases fees.len() - i,
        {
            map.insert(fees[i].0.as_str(), fees[i].1);
            proof {
                assert(fees@.take(i + 1).drop_last() =~= fees@.take(i as int));
            }
            i = i + 1;
        }
        proof {
            assert(fees@.take(fees@.len() as int) =~= fees@);
        }
        self.venue_fees = map;
    }

    pub fn maker_fee(&self, venue: &VenueId) -> (r: Decimal)
        ensures
            r == self.maker(venue.0@),
    {
        match self.venue_fees.get(venue.as_str()) {
            Some(f) => f.maker,
            None => Decimal::zero(),
        }
    }

    pub fn taker_fee(&self, venue: &VenueId) -> (r: Decimal)
        ensures
            r == self.taker(venue.0@),
    {
        match self.venue_fees.get(venue.as_str()) {
            Some(f) => f.taker,
            None => Decimal::zero(),
        }
    }

    /// The fee of an order as it is placed: both legs take.
    pub fn exec_fee(&self, venue: &VenueId) -> (r: Decimal)
        ensures
            r == self.taker(venue.0@),
    {
        self.taker_fee(venue)
    }

    /// The leverage of a venue: its own, in whatever case it is named, or that of
    /// all.
    pub fn leverage_for(&self, venue: &str) -> (r: Decimal)
        ensures
            r == leverage_of(self.sizing, venue@),
    {
        self.sizing.leverage_for(venue)
    }
}

/// The value under the first key that is a name of `venue`.
pub open spec fn leverage_in(s: Seq<(String, Decimal)>, venue: Seq<char>) -> Option<Decimal>
    decreases s.len(),
{
    if s.len() == 0 {
        None
    } else if same_ignoring_case(s[0].0@, venue) {
        Some(s[0].1)
    } else {
        leverage_in(s.drop_first(), venue)
    }
}

/// The leverage of a venue.
pub open spec fn leverage_of(sizing: SizingConfig, venue: Seq<char>) -> Decimal {
    match leverage_in(sizing.leverage_by_venue.list(), venue) {
        Some(d) => d,
        None => sizing.leverage_multiplier,
    }
}

impl SizingConfig {
    pub fn leverage_for(&self, venue: &str) -> (r: Decimal)
        ensures
            r == leverage_of(*self, venue@),
    {
        let n = self.leverage_by_venue.len();
        let ghost s = self.leverage_by_venue.list();
        let mut i: usize = 0;
        proof {
            assert(s.skip(0) =~= s);
        }
        while i < n
            invariant
                s == self.leverage_by_venue.list(),
                n == s.len(),
                i <= n,
                leverage_in(s, venue@) == leverage_in(s.skip(i as int), venue@),
            decreases n - i,
        {
            if same_but_case(self.leverage_by_venue.key(i).as_str(), venue) {
                return *self.leverage_by_venue.value(i);
            }
            proof {
                assert(s.skip(i as int).drop_first() =~= s.skip(i + 1));
            }
            i = i + 1;
        }
        self.leverage_multiplier
    }
}

proof fn lemma_leverage_in(s: Seq<(String, Decimal)>, venue: Seq<char>)
    ensures
        match leverage_in(s, venue) {
            Some(d) => exists|i: int|
                0 <= i < s.len() && same_ignoring_case((#[trigger] s[i]).0@, venue) && s[i].1 == d,
            None => forall|i: int|
                0 <= i < s.len() ==> !same_ignoring_case((#[trigger] s[i]).0@, venue),
        },
    decreases s.len(),
{
    if s.len() > 0 && !same_ignoring_case(s[0].0@, venue) {
        let t = s.drop_first();
        lemma_leverage_in(t, venue);
        match leverage_in(t, venue) {
            Some(d) => {
                let i = choose|i: int|
                    0 <= i < t.len() && same_ignoring_case((#[trigger] t[i]).0@, venue) && t[i].1
                        == d;
                assert(s[i + 1] == t[i]);
            },
            None => {
                assert forall|i: int| 0 <= i < s.len() implies !same_ignoring_case(
                    (#[trigger] s[i]).0@,
                    venue,
                ) by {
                    if i > 0 {
                        assert(s[i] == t[i - 1]);
                    }
                }
            },
        }
    }
}

/// The leverage of a venue is one that is set under its name in some case, or
/// that of all where none is.
pub proof fn law_leverage_is_set(sizing: SizingConfig, venue: Seq<char>)
    ensures
        ({
            let s = sizing.leverage_by_venue.list();
            let r = leverage_of(sizing, venue);
            ||| exists|i: int|
                0 <= i < s.len() && same_ignoring_case((#[trigger] s[i]).0@, venue) && s[i].1 == r
            ||| r == sizing.leverage_multiplier && forall|i: int|
                0 <= i < s.len() ==> !same_ignoring_case((#[trigger] s[i]).0@, venue)
        }),
{
    lemma_leverage_in(sizing.leverage_by_venue.list(), venue);
}

/// The fees by venue, the last of a venue counting.
pub open spec fn fees_of(fees: Seq<(String, VenueFees)>) -> Map<Seq<char>, VenueFees>
    decreases fees.len(),
{
    if fees.len() == 0 {
        Map::empty()
    } else {
        fees_of(fees.drop_last()).insert(fees.last().0@, fees.last().1)
    }
}

proof fn lemma_override_order(s: Seq<PairOverride>, a: Seq<char>, b: Seq<char>)
    ensures
        override_at(s, a, b) == override_at(s, b, a),
    decreases s.len(),
{
    if s.len() > 0 && !s[0].is_for(a, b) {
        lemma_override_order(s.drop_first(), a, b);
    }
}

/// The order in which two venues are named does not change what a pair says for
/// them.
pub proof fn law_override_ignores_order(s: PairSetting, a: Seq<char>, b: Seq<char>)
    ensures
        s.overriding(a, b) == s.overriding(b, a),
{
    lemma_override_order(s.overrides@, a, b);
}

/// The order in which two venues are named does not change the target of a coin.
pub proof fn law_target_ignores_order(
    c: AppConfig,
    symbol: Seq<char>,
    a: Seq<char>,
    b: Seq<char>,
)
    ensures
        c.target_of(symbol, a, b) == c.target_of(symbol, b, a),
{
    if let Some(s) = c.setting(symbol) {
        law_override_ignores_order(s, a, b);
    }
}

// ---------------------------------------------------------------------------
// The venues' files
// ---------------------------------------------------------------------------

/// The name of a venue's file without its ending.
pub open spec fn venue_stem(id: Seq<char>) -> Seq<char> {
    if id == "lighter_rh"@ {
        "lighter_robinhood"@
    } else {
        id
    }
}

fn stem(id: &str) -> (r: &str)
    ensures
        r@ == venue_stem(id@),
{
    if same(id, "lighter_rh") {
        "lighter_robinhood"
    } else {
        id
    }
}

pub fn venue_file_name(id: &str) -> (r: String)
    ensures
        r@ == venue_stem(id@) + ".yaml"@,
{
    joined(stem(id), ".yaml")
}

pub fn venue_example_name(id: &str) -> (r: String)
    ensures
        r@ == venue_stem(id@) + ".example.yaml"@,
{
    joined(stem(id), ".example.yaml")
}

/// Where a file of this name lies among those of the venues. A name that starts at the
/// root stays as it is.
pub open spec fn venue_path(name: Seq<char>) -> Seq<char> {
    if has_prefix(name, "/"@) {
        name
    } else {
        "config/venues/"@ + name
    }
}

pub fn in_venue_dir(name: String) -> (r: String)
    ensures
        r@ == venue_path(name@),
{
    if starts_with(name.as_str(), "/") {
        name
    } else {
        joined("config/venues/", name.as_str())
    }
}

/// The file that a venue is read from: its own, or the example where there is no
/// file of its own; without either, what to say.
pub fn venue_config_path(id: &str, primary_exists: bool, example_exists: bool) -> (r: Result<
    String,
    String,
>)
    ensures
        ({
            let primary = venue_path(venue_stem(id@) + ".yaml"@);
            let example = venue_path(venue_stem(id@) + ".example.yaml"@);
            match r {
                Ok(p) => if primary_exists {
                    p@ == primary
                } else {
                    example_exists && p@ == example
                },
                Err(m) => !primary_exists && !example_exists && m@ == "read venue "@ + primary
                    + " (also missing "@ + example + ")"@,
            }
        }),
{
    let primary = in_venue_dir(venue_file_name(id));
    if primary_exists {
        return Ok(primary);
    }
    let example = in_venue_dir(venue_example_name(id));
    if example_exists {
        return Ok(example);
    }
    let mut m: String = "read venue ".to_owned();
    m.append(primary.as_str());
    m.append(" (also missing ");
    m.append(example.as_str());
    m.append(")");
    Err(m)
}

/// What the environment says of a venue.
pub struct VenueEnv {
    pub account_id: Option<String>,
    pub api_key_name: Option<String>,
    pub private_key: Option<String>,
    pub account_address: Option<String>,
}

/// `given` where it is there and not blank, `known` otherwise.
pub open spec fn overlaid(known: Seq<char>, given: Option<String>) -> Seq<char> {
    match given {
        Some(v) => if trimmed(v@).len() > 0 {
            v@
        } else {
            known
        },
        None => known,
    }
}

fn overlay(known: &String, given: &Option<String>) -> (r: String)
    ensures
        r@ == overlaid(known@, *given),
{
    match given {
        Some(v) => if trim(v.as_str()).unicode_len() > 0 {
            v.clone()
        } else {
            known.clone()
        },
        None => known.clone(),
    }
}

/// The account number that the environment gives, if it is one.
pub open spec fn overlaid_account(known: i64, given: Option<String>) -> i64 {
    match given {
        Some(v) => match signed_of(trimmed(v@)) {
            Some(n) => if i64::MIN <= n <= i64::MAX {
                n as i64
            } else {
                known
            },
            None => known,
        },
        None => known,
    }
}

/// What the environment says goes before the file: for one venue all of it, for
/// another the key and the address, for the rest nothing.
pub fn overlay_venue_env(venue: &mut VenueFile, env: &VenueEnv)
    ensures
        ({
            let v = *old(venue);
            let w = *final(venue);
            let all = v.id@ == "sodex"@;
            let some = all || v.id@ == "entropy"@;
            &&& w.id == v.id && w.rest == v.rest && w.ws == v.ws && w.chain_id == v.chain_id
            &&& w.quote == v.quote && w.fees == v.fees && w.api_key_index == v.api_key_index
            &&& w.account_index == (if all {
                overlaid_account(v.account_index, env.account_id)
            } else {
                v.account_index
            })
            &&& w.api_key_name@ == (if all {
                overlaid(v.api_key_name@, env.api_key_name)
            } else {
                v.api_key_name@
            })
            &&& w.api_key_private_key@ == (if some {
                overlaid(v.api_key_private_key@, env.private_key)
            } else {
                v.api_key_private_key@
            })
            &&& w.account_address@ == (if some {
                overlaid(v.account_address@, env.account_address)
            } else {
                v.account_address@
            })
        }),
{
    let all = same(venue.id.as_str(), "sodex");
    let some = all || same(venue.id.as_str(), "entropy");
    if all {
        if let Some(v) = &env.account_id {
            if let Some(n) = parse_i64(trim(v.as_str())) {
                venue.account_index = n;
            }
        }
        venue.api_key_name = overlay(&venue.api_key_name, &env.api_key_name);
    }
    if some {
        venue.api_key_private_key = overlay(&venue.api_key_private_key, &env.private_key);
        venue.account_address = overlay(&venue.account_address, &env.account_address);
    }
}

/// A round trip takes what both venues take, in and out.
pub proof fn law_round_trip_pays_both_venues_twice(c: AppConfig, a: Seq<char>, b: Seq<char>)
    requires
        adds_exactly(Ok(c.taker(a)), Ok(c.taker(b))),
        multiplies_exactly(sum(Ok(c.taker(a)), Ok(c.taker(b))), Ok(lit(2, 0))),
    ensures
        c.round_trip_taker(a, b) matches Ok(r) && r.units() == 2 * (c.taker(a).units() + c.taker(
            b,
        ).units()),
{
    lemma_whole();
    lemma_whole_number(2);
    let w = whole();
    let t = c.taker(a).units() + c.taker(b).units();
    let r = value(c.round_trip_taker(a, b));
    assert(r == 2 * t) by (nonlinear_arith)
        requires
            r * w == t * (2 * w),
            w > 0,
    ;
}

/// What is said for two venues goes before what is said for the coin, and that before what is
/// said for all. The setting of a coin is the first under its name in some case, and the override
/// of two venues the first that names both.
pub proof fn law_the_special_goes_before_the_general(
    c: AppConfig,
    symbol: Seq<char>,
    a: Seq<char>,
    b: Seq<char>,
    min_qty: Decimal,
)
    ensures
        c.setting(symbol) is None ==> c.target_of(symbol, a, b) == c.pairs.defaults.target_bp
            && c.grid_of(symbol, a, b, min_qty) == Ok::<Option<GridParams>, ArithError>(None),
        c.setting(symbol) matches Some(s) ==> {
            let o = s.overriding(a, b);
            &&& same_ignoring_case(s.symbol@, symbol)
            &&& o matches Some(x) ==> x.is_for(a, b)
            &&& c.target_of(symbol, a, b) == (if o is Some && o->0.target_bp is Some {
                o->0.target_bp->0
            } else if s.target_bp is Some {
                s.target_bp->0
            } else {
                c.pairs.defaults.target_bp
            })
            &&& c.grid_of(symbol, a, b, min_qty) matches Ok(g) ==> (g matches Some(p) && {
                &&& p.base_qty == s.base_qty && p.min_qty == min_qty
                &&& p.max_segments == (if o is Some && o->0.max_segments is Some {
                    o->0.max_segments->0
                } else if s.max_segments is Some {
                    s.max_segments->0
                } else {
                    c.pairs.defaults.max_segments
                })
                &&& p.split_order_size == (if o is Some && o->0.split_order_size is Some {
                    o->0.split_order_size->0
                } else if s.split_order_size is Some {
                    s.split_order_size->0
                } else {
                    c.pairs.defaults.split_order_size
                })
                &&& p.persistence.nanos == c.grid.persistence_ms * crate::clock::NANOS_PER_MILLI
                &&& p.persistence_min_hits == c.grid.persistence_min_hits
            })
        },
{
    lemma_setting_first(c.pairs.enabled@, symbol);
    if let Some(s) = c.setting(symbol) {
        lemma_override_first(s.overrides@, a, b);
    }
}

proof fn lemma_setting_first(s: Seq<PairSetting>, symbol: Seq<char>)
    ensures
        0 <= setting_at(s, symbol) <= s.len(),
        setting_at(s, symbol) < s.len() ==> same_ignoring_case(
            s[setting_at(s, symbol)].symbol@,
            symbol,
        ),
    decreases s.len(),
{
    if s.len() > 0 && !same_ignoring_case(s[0].symbol@, symbol) {
        lemma_setting_first(s.drop_first(), symbol);
    }
}

proof fn lemma_override_first(s: Seq<PairOverride>, a: Seq<char>, b: Seq<char>)
    ensures
        0 <= override_at(s, a, b) <= s.len(),
        override_at(s, a, b) < s.len() ==> s[override_at(s, a, b)].is_for(a, b),
    decreases s.len(),
{
    if s.len() > 0 && !s[0].is_for(a, b) {
        lemma_override_first(s.drop_first(), a, b);
    }
}

} // verus!
