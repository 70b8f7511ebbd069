//! Engine configuration: the typed sections with their defaults, the
//! bounds every configuration must meet, and environment overrides.

use vstd::prelude::*;
use crate::text::{parse_bool, parse_decimal, parse_unsigned};
use crate::types::error::Durability;

verus! {

/// Engine section.
#[derive(Debug, Clone, Copy, PartialEq, Eq, Structural)]
pub struct EngineConfig {
    pub worker_threads: usize,
    pub ram_limit_mb: usize,
    pub shard_count: usize,
}

impl Default for EngineConfig {
    fn default() -> (r: Self)
        ensures
            r == (EngineConfig { worker_threads: 0, ram_limit_mb: 512, shard_count: 256 }),
    {
        EngineConfig { worker_threads: 0, ram_limit_mb: 512, shard_count: 256 }
    }
}

/// Detection section.
#[derive(Debug, Clone, Copy, PartialEq, Eq, Structural)]
pub struct DetectionConfig {
    pub rps_threshold: u64,
    pub rate_window_secs: u64,
    /// Unique IPs per subnet in one window required for a subnet batch block.
    pub subnet_batch_threshold: usize,
    /// Subnet event volume in the same window; a batch block needs both gates.
    pub subnet_batch_min_events: u64,
    pub batch_block_enabled: bool,
    pub block_ttl_secs: u64,
    /// TTL of subnet-burst blocks specifically.
    pub subnet_burst_ttl_secs: u64,
    pub bloom_bits: usize,
    /// Events accumulated before a forced flush.
    pub batch_max_events: usize,
    /// Longest wait (ms) before flushing a partial batch.
    pub batch_window_ms: u64,
    /// Longest wait (ms) before flushing the pre-aggregation buffer.
    pub pre_aggs_flush_interval_ms: u64,
    /// Per-IP hits in one window before full tracking.
    pub promote_min_events: u32,
    /// Subnet event count in one window that lowers promotion for it.
    pub subnet_window_threshold: u64,
    /// Unique IPs buffered before flushing to the store.
    pub pre_aggs_max_size: usize,
}

pub fn default_batch_max_events() -> (r: usize)
    ensures
        r == 4096,
{
    4096
}

pub fn default_batch_window_ms() -> (r: u64)
    ensures
        r == 50,
{
    50
}

pub fn default_promote_min() -> (r: u32)
    ensures
        r == 8,
{
    8
}

pub fn default_subnet_batch_min_events() -> (r: u64)
    ensures
        r == 100,
{
    100
}

pub fn default_subnet_burst_ttl_secs() -> (r: u64)
    ensures
        r == 120,
{
    120
}

pub fn default_subnet_window_threshold() -> (r: u64)
    ensures
        r == 500,
{
    500
}

pub fn default_pre_aggs_max_size() -> (r: usize)
    ensures
        r == 1_000_000,
{
    1_000_000
}

pub fn default_pre_aggs_flush_interval_ms() -> (r: u64)
    ensures
        r == 1000,
{
    1000
}

/// The default detection section.
pub open spec fn default_detection() -> DetectionConfig {
    DetectionConfig {
        rps_threshold: 1_000,
        rate_window_secs: 10,
        subnet_batch_threshold: 50,
        subnet_batch_min_events: 100,
        batch_block_enabled: true,
        block_ttl_secs: 3_600,
        subnet_burst_ttl_secs: 120,
        bloom_bits: 8_000_000,
        batch_max_events: 4096,
        batch_window_ms: 50,
        pre_aggs_flush_interval_ms: 1000,
        promote_min_events: 8,
        subnet_window_threshold: 500,
        pre_aggs_max_size: 1_000_000,
    }
}

impl Default for DetectionConfig {
    fn default() -> (r: Self)
        ensures
            r == default_detection(),
    {
        DetectionConfig {
            rps_threshold: 1_000,
            rate_window_secs: 10,
            subnet_batch_threshold: 50,
            subnet_batch_min_events: default_subnet_batch_min_events(),
            batch_block_enabled: true,
            block_ttl_secs: 3_600,
            subnet_burst_ttl_secs: default_subnet_burst_ttl_secs(),
            bloom_bits: 8_000_000,
            batch_max_events: default_batch_max_events(),
            batch_window_ms: default_batch_window_ms(),
            pre_aggs_flush_interval_ms: default_pre_aggs_flush_interval_ms(),
            promote_min_events: default_promote_min(),
            subnet_window_threshold: default_subnet_window_threshold(),
            pre_aggs_max_size: default_pre_aggs_max_size(),
        }
    }
}

/// XDP section.
#[derive(Debug, Clone)]
pub struct XdpConfig {
    /// Attach the XDP kernel program; when false, enforcement is in-band only.
    pub enabled: bool,
    /// Interface to attach to.
    pub interface: String,
    /// `skb` (generic) or `drv` (native).
    pub mode: String,
}

pub fn default_xdp_iface() -> (r: String)
    ensures
        r@ == "eth0"@,
{
    "eth0".to_owned()
}

pub fn default_xdp_mode() -> (r: String)
    ensures
        r@ == "skb"@,
{
    "skb".to_owned()
}

impl Default for XdpConfig {
    fn default() -> (r: Self)
        ensures
            !r.enabled,
            r.interface@ == "eth0"@,
            r.mode@ == "skb"@,
    {
        XdpConfig { enabled: false, interface: default_xdp_iface(), mode: default_xdp_mode() }
    }
}

/// IPC section.
#[derive(Debug, Clone)]
pub struct IpcConfig {
    pub tcp_addr: String,
    pub max_connections: usize,
    pub max_connection_bytes: Option<usize>,
    pub read_timeout_ms: Option<u64>,
    pub write_timeout_ms: Option<u64>,
    pub connection_idle_timeout_ms: Option<u64>,
}

pub fn default_max_connection_bytes() -> (r: Option<usize>)
    ensures
        r == Some(1_048_576usize),
{
    Some(1_048_576)
}

pub fn default_read_timeout_ms() -> (r: Option<u64>)
    ensures
        r == Some(5000u64),
{
    Some(5000)
}

pub fn default_write_timeout_ms() -> (r: Option<u64>)
    ensures
        r == Some(5000u64),
{
    Some(5000)
}

pub fn default_connection_idle_timeout_ms() -> (r: Option<u64>)
    ensures
        r == Some(30_000u64),
{
    Some(30_000)
}

impl Default for IpcConfig {
    fn default() -> (r: Self)
        ensures
            r.tcp_addr@ == "127.0.0.1:7890"@,
            r.max_connections == 256,
            r.max_connection_bytes is None,
            r.read_timeout_ms is None,
            r.write_timeout_ms is None,
            r.connection_idle_timeout_ms is None,
    {
        IpcConfig {
            tcp_addr: "127.0.0.1:7890".to_owned(),
            max_connections: 256,
            max_connection_bytes: None,
            read_timeout_ms: None,
            write_timeout_ms: None,
            connection_idle_timeout_ms: None,
        }
    }
}

/// Write-ahead-log section; disabled by default.
#[derive(Debug, Clone)]
pub struct WalConfig {
    pub enabled: bool,
    pub dir: String,
    pub durability: Durability,
    pub compress: bool,
    /// Segment rotation threshold in bytes.
    pub seg_max_bytes: u64,
    /// Largest total size on disk, oldest segments deleted first; 0 is
    /// unlimited.
    pub retention_max_bytes: u64,
}

impl Default for WalConfig {
    fn default() -> (r: Self)
        ensures
            !r.enabled,
            r.dir@ == "/var/lib/ramshield/wal"@,
            r.durability == Durability::Flush,
            r.compress,
            r.seg_max_bytes == 64 * 1024 * 1024,
            r.retention_max_bytes == 512 * 1024 * 1024,
    {
        WalConfig {
            enabled: false,
            dir: "/var/lib/ramshield/wal".to_owned(),
            durability: Durability::Flush,
            compress: true,
            seg_max_bytes: 64 * 1024 * 1024,
            retention_max_bytes: 512 * 1024 * 1024,
        }
    }
}

/// Dashboard section.
#[derive(Debug, Clone)]
pub struct DashboardConfig {
    pub enabled: bool,
    pub http_addr: String,
    /// Block-history ring size.
    pub block_log_size: usize,
    /// PHC hash of the admin password, when one is set.
    pub admin_password_hash: Option<String>,
    /// Session lifetime in seconds.
    pub session_ttl_secs: u64,
}

pub fn default_session_ttl_secs() -> (r: u64)
    ensures
        r == 28_800,
{
    28_800
}

pub fn default_block_log_size() -> (r: usize)
    ensures
        r == 1_000,
{
    1_000
}

impl Default for DashboardConfig {
    fn default() -> (r: Self)
        ensures
            r.enabled,
            r.http_addr@ == "127.0.0.1:9999"@,
            r.block_log_size == 1_000,
            r.admin_password_hash is None,
            r.session_ttl_secs == 28_800,
    {
        DashboardConfig {
            enabled: true,
            http_addr: "127.0.0.1:9999".to_owned(),
            block_log_size: default_block_log_size(),
            admin_password_hash: None,
            session_ttl_secs: default_session_ttl_secs(),
        }
    }
}

/// The configuration sections held here (the forecasting section, whose
/// parameters are floating point, is held beside them by the caller).
#[derive(Debug, Clone)]
pub struct Config {
    pub engine: EngineConfig,
    pub detection: DetectionConfig,
    pub xdp: XdpConfig,
    pub ipc: IpcConfig,
    pub wal: WalConfig,
    pub dashboard: DashboardConfig,
}

impl Default for Config {
    fn default() -> (r: Self)
        ensures
            r.engine == (EngineConfig { worker_threads: 0, ram_limit_mb: 512, shard_count: 256 }),
            r.detection == default_detection(),
            r.ipc.max_connections == 256,
            r.dashboard.http_addr@ == "127.0.0.1:9999"@,
            r.dashboard.block_log_size == 1_000,
            !r.xdp.enabled,
            !r.wal.enabled,
    {
        Config {
            engine: EngineConfig::default(),
            detection: DetectionConfig::default(),
            xdp: XdpConfig::default(),
            ipc: IpcConfig::default(),
            wal: WalConfig::default(),
            dashboard: DashboardConfig::default(),
        }
    }
}

/// What validation needs of the forecasting section: whether it is enabled,
/// whether `ewma_alpha` lies in `[0.0, 1.0]`, the seasonality period, and
/// whether `anomaly_zscore` is at least 1.0.
#[derive(Debug, Clone, Copy)]
pub struct ForecastingChecks {
    pub enabled: bool,
    pub ewma_alpha_in_unit_range: bool,
    pub seasonality_period: usize,
    pub anomaly_zscore_at_least_one: bool,
}

/// A violated configuration bound.
#[derive(Debug, Clone, Copy, PartialEq, Eq, Structural)]
pub enum ConfigError {
    RamLimitTooSmall,
    ShardCountNotPowerOfTwo,
    RpsThresholdZero,
    PromoteMinEventsZero,
    BloomBitsTooSmall,
    BatchMaxEventsOutOfRange,
    BatchWindowOutOfRange,
    SubnetWindowThresholdTooSmall,
    PreAggsMaxSizeZero,
    MaxConnectionsZero,
    MaxConnectionsTooLarge,
    EwmaAlphaOutOfRange,
    SeasonalityPeriodZero,
    AnomalyZscoreTooSmall,
    HttpAddrEmpty,
}

/// The operator-facing message of each configuration error.
pub open spec fn config_error_text(e: ConfigError) -> Seq<char> {
    match e {
        ConfigError::RamLimitTooSmall => "engine.ram_limit_mb must be at least 64 MB"@,
        ConfigError::ShardCountNotPowerOfTwo => "engine.shard_count must be a power of 2"@,
        ConfigError::RpsThresholdZero => "detection.rps_threshold must be > 0"@,
        ConfigError::PromoteMinEventsZero => "detection.promote_min_events must be > 0"@,
        ConfigError::BloomBitsTooSmall => "detection.bloom_bits should be at least 100,000 for low false positive rate"@,
        ConfigError::BatchMaxEventsOutOfRange => "detection.batch_max_events must be between 1 and 65536"@,
        ConfigError::BatchWindowOutOfRange => "detection.batch_window_ms must be between 1 and 500 ms"@,
        ConfigError::SubnetWindowThresholdTooSmall => "detection.subnet_window_threshold should be at least 10"@,
        ConfigError::PreAggsMaxSizeZero => "detection.pre_aggs_max_size must be > 0"@,
        ConfigError::MaxConnectionsZero => "ipc.max_connections must be > 0"@,
        ConfigError::MaxConnectionsTooLarge => "ipc.max_connections should not exceed 1,000,000"@,
        ConfigError::EwmaAlphaOutOfRange => "forecasting.ewma_alpha must be in range [0.0, 1.0]"@,
        ConfigError::SeasonalityPeriodZero => "forecasting.seasonality_period must be > 0"@,
        ConfigError::AnomalyZscoreTooSmall => "forecasting.anomaly_zscore should be at least 1.0"@,
        ConfigError::HttpAddrEmpty => "dashboard.http_addr must not be empty"@,
    }
}

impl ConfigError {
    /// The operator-facing message.
    pub fn message(&self) -> (s: &'static str)
        ensures
            s@ == config_error_text(*self),
    {
        match self {
            ConfigError::RamLimitTooSmall => "engine.ram_limit_mb must be at least 64 MB",
            ConfigError::ShardCountNotPowerOfTwo => "engine.shard_count must be a power of 2",
            ConfigError::RpsThresholdZero => "detection.rps_threshold must be > 0",
            ConfigError::PromoteMinEventsZero => "detection.promote_min_events must be > 0",
            ConfigError::BloomBitsTooSmall => "detection.bloom_bits should be at least 100,000 for low false positive rate",
            ConfigError::BatchMaxEventsOutOfRange => "detection.batch_max_events must be between 1 and 65536",
            ConfigError::BatchWindowOutOfRange => "detection.batch_window_ms must be between 1 and 500 ms",
            ConfigError::SubnetWindowThresholdTooSmall => "detection.subnet_window_threshold should be at least 10",
            ConfigError::PreAggsMaxSizeZero => "detection.pre_aggs_max_size must be > 0",
            ConfigError::MaxConnectionsZero => "ipc.max_connections must be > 0",
            ConfigError::MaxConnectionsTooLarge => "ipc.max_connections should not exceed 1,000,000",
            ConfigError::EwmaAlphaOutOfRange => "forecasting.ewma_alpha must be in range [0.0, 1.0]",
            ConfigError::SeasonalityPeriodZero => "forecasting.seasonality_period must be > 0",
            ConfigError::AnomalyZscoreTooSmall => "forecasting.anomaly_zscore should be at least 1.0",
            ConfigError::HttpAddrEmpty => "dashboard.http_addr must not be empty",
        }
    }
}

/// Whether `n` is a power of two.
pub open spec fn is_pow2(n: nat) -> bool
    decreases n,
{
    if n == 1 {
        true
    } else if n == 0 || n % 2 == 1 {
        false
    } else {
        is_pow2(n / 2)
    }
}

/// Whether `n` is a power of two.
pub fn is_power_of_two(n: usize) -> (r: bool)
    ensures
        r == is_pow2(n as nat),
    decreases n,
{
    if n == 1 {
        true
    } else if n == 0 || n % 2 == 1 {
        false
    } else {
        is_power_of_two(n / 2)
    }
}

/// The first bound a configuration breaks, in the order they are checked,
/// or none.
pub open spec fn first_violation(c: Config, f: ForecastingChecks) -> Option<ConfigError> {
    if c.engine.ram_limit_mb < 64 {
        Some(ConfigError::RamLimitTooSmall)
    } else if !is_pow2(c.engine.shard_count as nat) {
        Some(ConfigError::ShardCountNotPowerOfTwo)
    } else if c.detection.rps_threshold == 0 {
        Some(ConfigError::RpsThresholdZero)
    } else if c.detection.promote_min_events == 0 {
        Some(ConfigError::PromoteMinEventsZero)
    } else if c.detection.bloom_bits < 100_000 {
        Some(ConfigError::BloomBitsTooSmall)
    } else if c.detection.batch_max_events == 0 || c.detection.batch_max_events > 65536 {
        Some(ConfigError::BatchMaxEventsOutOfRange)
    } else if c.detection.batch_window_ms == 0 || c.detection.batch_window_ms > 500 {
        Some(ConfigError::BatchWindowOutOfRange)
    } else if c.detection.subnet_window_threshold < 10 {
        Some(ConfigError::SubnetWindowThresholdTooSmall)
    } else if c.detection.pre_aggs_max_size == 0 {
        Some(ConfigError::PreAggsMaxSizeZero)
    } else if c.ipc.max_connections == 0 {
        Some(ConfigError::MaxConnectionsZero)
    } else if c.ipc.max_connections > 1_000_000 {
        Some(ConfigError::MaxConnectionsTooLarge)
    } else if f.enabled && !f.ewma_alpha_in_unit_range {
        Some(ConfigError::EwmaAlphaOutOfRange)
    } else if f.enabled && f.seasonality_period == 0 {
        Some(ConfigError::SeasonalityPeriodZero)
    } else if f.enabled && !f.anomaly_zscore_at_least_one {
        Some(ConfigError::AnomalyZscoreTooSmall)
    } else if c.dashboard.http_addr@.len() == 0 {
        Some(ConfigError::HttpAddrEmpty)
    } else {
        None
    }
}

impl Config {
    /// Check the configuration's bounds; the error is the first bound
    /// broken.
    pub fn validate(&self, forecasting: &ForecastingChecks) -> (r: Result<(), ConfigError>)
        ensures
            r == (match first_violation(*self, *forecasting) {
                Some(e) => Err(e),
                None => Ok(()),
            }),
    {
        let e = &self.engine;
        let d = &self.detection;
        if e.ram_limit_mb < 64 {
            return Err(ConfigError::RamLimitTooSmall);
        }
        if !is_power_of_two(e.shard_count) {
            return Err(ConfigError::ShardCountNotPowerOfTwo);
        }
        if d.rps_threshold == 0 {
            return Err(ConfigError::RpsThresholdZero);
        }
        if d.promote_min_events == 0 {
            return Err(ConfigError::PromoteMinEventsZero);
        }
        if d.bloom_bits < 100_000 {
            return Err(ConfigError::BloomBitsTooSmall);
        }
        if d.batch_max_events == 0 || d.batch_max_events > 65536 {
            return Err(ConfigError::BatchMaxEventsOutOfRange);
        }
        if d.batch_window_ms == 0 || d.batch_window_ms > 500 {
            return Err(ConfigError::BatchWindowOutOfRange);
        }
        if d.subnet_window_threshold < 10 {
            return Err(ConfigError::SubnetWindowThresholdTooSmall);
        }
        if d.pre_aggs_max_size == 0 {
            return Err(ConfigError::PreAggsMaxSizeZero);
        }
        if self.ipc.max_connections == 0 {
            return Err(ConfigError::MaxConnectionsZero);
        }
        if self.ipc.max_connections > 1_000_000 {
            return Err(ConfigError::MaxConnectionsTooLarge);
        }
        if forecasting.enabled {
            if !forecasting.ewma_alpha_in_unit_range {
                return Err(ConfigError::EwmaAlphaOutOfRange);
            }
            if forecasting.seasonality_period == 0 {
                return Err(ConfigError::SeasonalityPeriodZero);
            }
            if !forecasting.anomaly_zscore_at_least_one {
                return Err(ConfigError::AnomalyZscoreTooSmall);
            }
        }
        if self.dashboard.http_addr.as_str().is_empty() {
            return Err(ConfigError::HttpAddrEmpty);
        }
        Ok(())
    }
}

/// The defaults pass validation whenever the forecasting parameters do.
pub proof fn lemma_defaults_validate(c: Config, f: ForecastingChecks)
    requires
        c.engine == (EngineConfig { worker_threads: 0, ram_limit_mb: 512, shard_count: 256 }),
        c.detection == default_detection(),
        c.ipc.max_connections == 256,
        c.dashboard.http_addr@ == "127.0.0.1:9999"@,
        f.enabled ==> f.ewma_alpha_in_unit_range && f.seasonality_period > 0
            && f.anomaly_zscore_at_least_one,
    ensures
        first_violation(c, f) is None,
{
    reveal_with_fuel(is_pow2, 10);
    reveal_strlit("127.0.0.1:9999");
}

/// Fail-closed law: a configuration validates exactly when every bound
/// holds: at least 64 MB of RAM, a power-of-two shard count, a non-zero RPS
/// threshold and promotion minimum, at least 100 000 Bloom bits, 1 to
/// 65 536 events per batch, a batch window of 1 to 500 ms, a subnet
/// threshold of at least 10, a non-zero pre-aggregation size, 1 to
/// 1 000 000 IPC connections, sound forecasting parameters when forecasting
/// is on, and a dashboard address. A batch window outside 1 to 500 ms is
/// always refused, as `BatchWindowOutOfRange` when no earlier bound fails.
pub proof fn lemma_validate_is_fail_closed(c: Config, f: ForecastingChecks)
    ensures
        (first_violation(c, f) is None) <==> {
            &&& c.engine.ram_limit_mb >= 64
            &&& is_pow2(c.engine.shard_count as nat)
            &&& c.detection.rps_threshold >= 1
            &&& c.detection.promote_min_events >= 1
            &&& c.detection.bloom_bits >= 100_000
            &&& 1 <= c.detection.batch_max_events <= 65_536
            &&& 1 <= c.detection.batch_window_ms <= 500
            &&& c.detection.subnet_window_threshold >= 10
            &&& c.detection.pre_aggs_max_size >= 1
            &&& 1 <= c.ipc.max_connections <= 1_000_000
            &&& f.enabled ==> f.ewma_alpha_in_unit_range && f.seasonality_period >= 1
                && f.anomaly_zscore_at_least_one
            &&& c.dashboard.http_addr@.len() >= 1
        },
        c.detection.batch_window_ms > 500 ==> first_violation(c, f) is Some,
        c.detection.batch_window_ms == 0 ==> first_violation(c, f) is Some,
        ({
            &&& c.engine.ram_limit_mb >= 64
            &&& is_pow2(c.engine.shard_count as nat)
            &&& c.detection.rps_threshold >= 1
            &&& c.detection.promote_min_events >= 1
            &&& c.detection.bloom_bits >= 100_000
            &&& 1 <= c.detection.batch_max_events <= 65_536
            &&& (c.detection.batch_window_ms == 0 || c.detection.batch_window_ms > 500)
        }) ==> first_violation(c, f) == Some(ConfigError::BatchWindowOutOfRange),
{
}

/// The raw values of the `RAMSHIELD_<SECTION>__<FIELD>` environment
/// variables that override configuration fields (`None` when unset).
#[derive(Debug, Clone)]
pub struct EnvOverrides {
    pub engine_ram_limit_mb: Option<String>,
    pub engine_worker_threads: Option<String>,
    pub engine_shard_count: Option<String>,
    pub detection_rps_threshold: Option<String>,
    pub detection_promote_min_events: Option<String>,
    pub detection_batch_window_ms: Option<String>,
    pub detection_subnet_window_threshold: Option<String>,
    pub detection_block_ttl_secs: Option<String>,
    pub detection_subnet_burst_ttl_secs: Option<String>,
    pub ipc_tcp_addr: Option<String>,
    pub ipc_max_connections: Option<String>,
    pub dashboard_enabled: Option<String>,
    pub dashboard_http_addr: Option<String>,
    pub forecasting_enabled: Option<String>,
}

/// The value an override gives a numeric field whose largest value is
/// `max`: the parsed number when the variable is set and parses within
/// range, else the field's old value.
pub open spec fn override_num(old: nat, v: Option<String>, max: nat) -> nat {
    match v {
        Some(s) => match parse_unsigned(s@) {
            Some(n) => if n <= max {
                n
            } else {
                old
            },
            None => old,
        },
        None => old,
    }
}

/// Whether an override variable is set and parses as a number within `max`.
pub open spec fn override_applies(v: Option<String>, max: nat) -> bool {
    match v {
        Some(s) => match parse_unsigned(s@) {
            Some(n) => n <= max,
            None => false,
        },
        None => false,
    }
}

/// The smallest power of two that is at least `n`, searching from `p`.
pub open spec fn pow2_at_least(n: nat, p: nat) -> nat
    decreases (if p >= n {
        0
    } else {
        n - p
    }),
{
    if p == 0 || p >= n {
        p
    } else {
        pow2_at_least(n, p * 2)
    }
}

/// The smallest power of two that is at least `n` (1 for 0).
pub open spec fn next_pow2(n: nat) -> nat {
    pow2_at_least(n, 1)
}

/// The smallest power of two that is at least `n`.
pub fn next_power_of_two(n: usize) -> (r: usize)
    requires
        n <= usize::MAX / 2 + 1,
    ensures
        r == next_pow2(n as nat),
{
    let mut p: usize = 1;
    while p < n
        invariant
            1 <= p,
            n <= usize::MAX / 2 + 1,
            p < n ==> p <= usize::MAX / 2,
            pow2_at_least(n as nat, p as nat) == next_pow2(n as nat),
        decreases (if p >= n {
            0
        } else {
            n - p
        }),
    {
        assert(pow2_at_least(n as nat, p as nat) == pow2_at_least(n as nat, (p * 2) as nat));
        p = p * 2;
    }
    p
}

/// The value a boolean override gives: the parsed value when the variable
/// is `true` or `false`, else the old value.
pub open spec fn override_bool(old: bool, v: Option<String>) -> bool {
    match v {
        Some(s) => if s@ == "true"@ {
            true
        } else if s@ == "false"@ {
            false
        } else {
            old
        },
        None => old,
    }
}

fn apply_num(old: u64, v: &Option<String>, max: u64) -> (r: u64)
    ensures
        r as nat == override_num(old as nat, *v, max as nat),
{
    match v {
        Some(s) => match parse_decimal(s.as_str(), max) {
            Some(n) => n,
            None => old,
        },
        None => old,
    }
}

impl Config {
    /// Apply the environment overrides: every set variable that parses (a
    /// number in range, or `true` / `false`) replaces its field; a shard
    /// count is rounded up to a power of two; the address overrides are
    /// taken as they are. Returns the forecasting `enabled` override, for
    /// the forecasting section held by the caller.
    pub fn apply_env_overrides(&mut self, env: &EnvOverrides) -> (forecasting_enabled: Option<bool>)
        requires
            override_applies(env.engine_shard_count, usize::MAX as nat) ==> override_num(
                0,
                env.engine_shard_count,
                usize::MAX as nat,
            ) <= usize::MAX / 2 + 1,
        ensures
            final(self).engine.ram_limit_mb as nat == override_num(
                old(self).engine.ram_limit_mb as nat,
                env.engine_ram_limit_mb,
                usize::MAX as nat,
            ),
            final(self).engine.worker_threads as nat == override_num(
                old(self).engine.worker_threads as nat,
                env.engine_worker_threads,
                usize::MAX as nat,
            ),
            final(self).engine.shard_count as nat == (if override_applies(
                env.engine_shard_count,
                usize::MAX as nat,
            ) {
                next_pow2(override_num(0, env.engine_shard_count, usize::MAX as nat))
            } else {
                old(self).engine.shard_count as nat
            }),
            final(self).detection.rps_threshold as nat == override_num(
                old(self).detection.rps_threshold as nat,
                env.detection_rps_threshold,
                u64::MAX as nat,
            ),
            final(self).detection.promote_min_events as nat == override_num(
                old(self).detection.promote_min_events as nat,
                env.detection_promote_min_events,
                u32::MAX as nat,
            ),
            final(self).detection.batch_window_ms as nat == override_num(
                old(self).detection.batch_window_ms as nat,
                env.detection_batch_window_ms,
                u64::MAX as nat,
            ),
            final(self).detection.subnet_window_threshold as nat == override_num(
                old(self).detection.subnet_window_threshold as nat,
                env.detection_subnet_window_threshold,
                u64::MAX as nat,
            ),
            final(self).detection.block_ttl_secs as nat == override_num(
                old(self).detection.block_ttl_secs as nat,
                env.detection_block_ttl_secs,
                u64::MAX as nat,
            ),
            final(self).detection.subnet_burst_ttl_secs as nat == override_num(
                old(self).detection.subnet_burst_ttl_secs as nat,
                env.detection_subnet_burst_ttl_secs,
                u64::MAX as nat,
            ),
            final(self).ipc.tcp_addr == (match env.ipc_tcp_addr {
                Some(v) => v,
                None => old(self).ipc.tcp_addr,
            }),
            final(self).ipc.max_connections as nat == override_num(
                old(self).ipc.max_connections as nat,
                env.ipc_max_connections,
                usize::MAX as nat,
            ),
            final(self).dashboard.enabled == override_bool(
                old(self).dashboard.enabled,
                env.dashboard_enabled,
            ),
            final(self).dashboard.http_addr == (match env.dashboard_http_addr {
                Some(v) => v,
                None => old(self).dashboard.http_addr,
            }),
            forecasting_enabled == (match env.forecasting_enabled {
                Some(s) => if s@ == "true"@ {
                    Some(true)
                } else if s@ == "false"@ {
                    Some(false)
                } else {
                    None
                },
                None => None,
            }),
            final(self).detection.rate_window_secs == old(self).detection.rate_window_secs,
            final(self).detection.subnet_batch_threshold == old(
                self,
            ).detection.subnet_batch_threshold,
            final(self).detection.subnet_batch_min_events == old(
                self,
            ).detection.subnet_batch_min_events,
            final(self).detection.batch_block_enabled == old(self).detection.batch_block_enabled,
            final(self).detection.bloom_bits == old(self).detection.bloom_bits,
            final(self).detection.batch_max_events == old(self).detection.batch_max_events,
            final(self).detection.pre_aggs_flush_interval_ms == old(
                self,
            ).detection.pre_aggs_flush_interval_ms,
            final(self).detection.pre_aggs_max_size == old(self).detection.pre_aggs_max_size,
            final(self).ipc.max_connection_bytes == old(self).ipc.max_connection_bytes,
            final(self).ipc.read_timeout_ms == old(self).ipc.read_timeout_ms,
            final(self).ipc.write_timeout_ms == old(self).ipc.write_timeout_ms,
            final(self).ipc.connection_idle_timeout_ms == old(self).ipc.connection_idle_timeout_ms,
            final(self).dashboard.block_log_size == old(self).dashboard.block_log_size,
            final(self).dashboard.admin_password_hash == old(self).dashboard.admin_password_hash,
            final(self).dashboard.session_ttl_secs == old(self).dashboard.session_ttl_secs,
            final(self).xdp.enabled == old(self).xdp.enabled,
            final(self).xdp.interface == old(self).xdp.interface,
            final(self).xdp.mode == old(self).xdp.mode,
            final(self).wal.enabled == old(self).wal.enabled,
            final(self).wal.dir == old(self).wal.dir,
            final(self).wal.durability == old(self).wal.durability,
            final(self).wal.compress == old(self).wal.compress,
            final(self).wal.seg_max_bytes == old(self).wal.seg_max_bytes,
            final(self).wal.retention_max_bytes == old(self).wal.retention_max_bytes,
    {
        let umax: u64 = usize::MAX as u64;
        self.engine.ram_limit_mb = apply_num(
            self.engine.ram_limit_mb as u64,
            &env.engine_ram_limit_mb,
            umax,
        ) as usize;
        self.engine.worker_threads = apply_num(
            self.engine.worker_threads as u64,
            &env.engine_worker_threads,
            umax,
        ) as usize;
        if let Some(v) = &env.engine_shard_count {
            if let Some(n) = parse_decimal(v.as_str(), umax) {
                self.engine.shard_count = next_power_of_two(n as usize);
            }
        }
        self.detection.rps_threshold = apply_num(
            self.detection.rps_threshold,
            &env.detection_rps_threshold,
            u64::MAX,
        );
        self.detection.promote_min_events = apply_num(
            self.detection.promote_min_events as u64,
            &env.detection_promote_min_events,
            u32::MAX as u64,
        ) as u32;
        self.detection.batch_window_ms = apply_num(
            self.detection.batch_window_ms,
            &env.detection_batch_window_ms,
            u64::MAX,
        );
        self.detection.subnet_window_threshold = apply_num(
            self.detection.subnet_window_threshold,
            &env.detection_subnet_window_threshold,
            u64::MAX,
        );
        self.detection.block_ttl_secs = apply_num(
            self.detection.block_ttl_secs,
            &env.detection_block_ttl_secs,
            u64::MAX,
        );
        self.detection.subnet_burst_ttl_secs = apply_num(
            self.detection.subnet_burst_ttl_secs,
            &env.detection_subnet_burst_ttl_secs,
            u64::MAX,
        );
        if let Some(v) = &env.ipc_tcp_addr {
            self.ipc.tcp_addr = v.clone();
        }
        self.ipc.max_connections = apply_num(
            self.ipc.max_connections as u64,
            &env.ipc_max_connections,
            umax,
        ) as usize;
        if let Some(v) = &env.dashboard_enabled {
            if let Some(b) = parse_bool(v.as_str()) {
                self.dashboard.enabled = b;
            }
        }
        if let Some(v) = &env.dashboard_http_addr {
            self.dashboard.http_addr = v.clone();
        }
        match &env.forecasting_enabled {
            Some(v) => parse_bool(v.as_str()),
            None => None,
        }
    }
}

} // verus!
