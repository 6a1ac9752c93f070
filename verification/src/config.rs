//! Configuration of the Aegis daemon.
//!
//! Every section has a sensible default, so the daemon runs against an
//! empty configuration file. The daemon reads the TOML file; these are the
//! values it holds.

use vstd::prelude::*;
use crate::hec::HecConfig;

verus! {

/// Where raw logs come in.
pub struct IngestConfig {
    pub tcp_listen: Option<String>,
    pub udp_listen: Option<String>,
    pub tail_files: Vec<String>,
}

/// The TCP listener's default address.
pub fn default_tcp_listen() -> (r: Option<String>)
    ensures
        r is Some && r->0@ == "127.0.0.1:5140"@,
{
    Some("127.0.0.1:5140".to_string())
}

impl Default for IngestConfig {
    fn default() -> (c: Self)
        ensures
            c.tcp_listen is Some && c.tcp_listen->0@ == "127.0.0.1:5140"@,
            c.udp_listen is None,
            c.tail_files@.len() == 0,
    {
        IngestConfig { tcp_listen: default_tcp_listen(), udp_listen: None, tail_files: Vec::new() }
    }
}

/// Dedup window and table size.
#[derive(Clone, Copy, Debug, PartialEq, Eq, Structural)]
pub struct DedupConfig {
    pub window_secs: u64,
    pub max_open_signatures: usize,
}

pub fn default_window_secs() -> (r: u64)
    ensures
        r == 30,
{
    30
}

pub fn default_max_open() -> (r: usize)
    ensures
        r == 4096,
{
    4096
}

impl Default for DedupConfig {
    fn default() -> (c: Self)
        ensures
            c.window_secs == 30,
            c.max_open_signatures == 4096,
    {
        DedupConfig { window_secs: default_window_secs(), max_open_signatures: default_max_open() }
    }
}

/// Routine-traffic summarisation.
#[derive(Clone, Copy, Debug, PartialEq, Eq, Structural)]
pub struct SummaryConfig {
    /// Roll routine-classified collapses into periodic summaries (needs the
    /// sidecar for labels).
    pub enabled: bool,
    pub batch_size: usize,
    pub flush_secs: u64,
}

pub fn default_batch_size() -> (r: usize)
    ensures
        r == 500,
{
    500
}

pub fn default_flush_secs() -> (r: u64)
    ensures
        r == 30,
{
    30
}

impl Default for SummaryConfig {
    fn default() -> (c: Self)
        ensures
            !c.enabled,
            c.batch_size == 500,
            c.flush_secs == 30,
    {
        SummaryConfig {
            enabled: false,
            batch_size: default_batch_size(),
            flush_secs: default_flush_secs(),
        }
    }
}

/// The on-disk priority queue.
pub struct QueueConfig {
    pub path: String,
    pub max_disk_bytes: u64,
    pub priority_anomaly_first: bool,
}

pub fn default_queue_path() -> (r: String)
    ensures
        r@ == "data/aegis-queue.sqlite"@,
{
    "data/aegis-queue.sqlite".to_string()
}

pub fn default_max_disk() -> (r: u64)
    ensures
        r == 1_073_741_824,
{
    1_073_741_824
}

pub fn default_true() -> (r: bool)
    ensures
        r,
{
    true
}

impl Default for QueueConfig {
    fn default() -> (c: Self)
        ensures
            c.path@ == "data/aegis-queue.sqlite"@,
            c.max_disk_bytes == 1_073_741_824,
            c.priority_anomaly_first,
    {
        QueueConfig {
            path: default_queue_path(),
            max_disk_bytes: default_max_disk(),
            priority_anomaly_first: default_true(),
        }
    }
}

/// The AI sidecar.
pub struct SidecarConfig {
    pub url: String,
    pub enabled: bool,
}

pub fn default_sidecar_url() -> (r: String)
    ensures
        r@ == "http://127.0.0.1:8765"@,
{
    "http://127.0.0.1:8765".to_string()
}

impl Default for SidecarConfig {
    fn default() -> (c: Self)
        ensures
            c.url@ == "http://127.0.0.1:8765"@,
            !c.enabled,
    {
        SidecarConfig { url: default_sidecar_url(), enabled: false }
    }
}

/// Aegis's own metrics.
pub struct SelfMetricsConfig {
    pub source: String,
    pub sourcetype: String,
    pub flush_secs: u64,
}

pub fn default_self_source() -> (r: String)
    ensures
        r@ == "aegis:self"@,
{
    "aegis:self".to_string()
}

pub fn default_self_sourcetype() -> (r: String)
    ensures
        r@ == "aegis:selfmetric"@,
{
    "aegis:selfmetric".to_string()
}

pub fn default_self_flush() -> (r: u64)
    ensures
        r == 15,
{
    15
}

impl Default for SelfMetricsConfig {
    fn default() -> (c: Self)
        ensures
            c.source@ == "aegis:self"@,
            c.sourcetype@ == "aegis:selfmetric"@,
            c.flush_secs == 15,
    {
        SelfMetricsConfig {
            source: default_self_source(),
            sourcetype: default_self_sourcetype(),
            flush_secs: default_self_flush(),
        }
    }
}

/// The MCP HTTP server; no address disables it.
pub struct McpConfig {
    pub http_listen: Option<String>,
}

pub fn default_mcp_listen() -> (r: Option<String>)
    ensures
        r is Some && r->0@ == "127.0.0.1:7321"@,
{
    Some("127.0.0.1:7321".to_string())
}

impl Default for McpConfig {
    fn default() -> (c: Self)
        ensures
            c.http_listen is Some && c.http_listen->0@ == "127.0.0.1:7321"@,
    {
        McpConfig { http_listen: default_mcp_listen() }
    }
}

/// Causal chain detection.
#[derive(Clone, Copy, Debug, PartialEq, Eq, Structural)]
pub struct CausalConfig {
    pub window_secs: u64,
    pub min_services: usize,
    pub cooldown_secs: u64,
}

pub fn default_causal_window() -> (r: u64)
    ensures
        r == 60,
{
    60
}

pub fn default_causal_min_services() -> (r: usize)
    ensures
        r == 3,
{
    3
}

pub fn default_causal_cooldown() -> (r: u64)
    ensures
        r == 300,
{
    300
}

impl Default for CausalConfig {
    fn default() -> (c: Self)
        ensures
            c.window_secs == 60,
            c.min_services == 3,
            c.cooldown_secs == 300,
    {
        CausalConfig {
            window_secs: default_causal_window(),
            min_services: default_causal_min_services(),
            cooldown_secs: default_causal_cooldown(),
        }
    }
}

/// The incident memory.
pub struct MemoryConfig {
    pub path: String,
    pub top_matches: usize,
    /// Minimum similarity (basis points) of a past incident shown on a card.
    pub min_similarity_bp: u32,
}

pub fn default_memory_path() -> (r: String)
    ensures
        r@ == "data/aegis-incidents.sqlite"@,
{
    "data/aegis-incidents.sqlite".to_string()
}

pub fn default_memory_top_n() -> (r: usize)
    ensures
        r == 3,
{
    3
}

pub fn default_memory_min_similarity() -> (r: u32)
    ensures
        r == 2500,
{
    2500
}

impl Default for MemoryConfig {
    fn default() -> (c: Self)
        ensures
            c.path@ == "data/aegis-incidents.sqlite"@,
            c.top_matches == 3,
            c.min_similarity_bp == 2500,
    {
        MemoryConfig {
            path: default_memory_path(),
            top_matches: default_memory_top_n(),
            min_similarity_bp: default_memory_min_similarity(),
        }
    }
}

/// Decision cards.
#[derive(Clone, Copy, Debug, PartialEq, Eq, Structural)]
pub struct DecisionConfig {
    pub idle_to_green_secs: u64,
}

pub fn default_idle_green_secs() -> (r: u64)
    ensures
        r == 300,
{
    300
}

impl Default for DecisionConfig {
    fn default() -> (c: Self)
        ensures
            c.idle_to_green_secs == 300,
    {
        DecisionConfig { idle_to_green_secs: default_idle_green_secs() }
    }
}

/// The silent-service detector.
#[derive(Clone, Copy, Debug, PartialEq, Eq, Structural)]
pub struct SilenceConfig {
    pub silence_secs: u64,
    pub sweep_secs: u64,
    /// Off for batch pipelines whose services come and go on schedule.
    pub enabled: bool,
}

pub fn default_silence_secs() -> (r: u64)
    ensures
        r == 120,
{
    120
}

pub fn default_silence_sweep() -> (r: u64)
    ensures
        r == 10,
{
    10
}

impl Default for SilenceConfig {
    fn default() -> (c: Self)
        ensures
            c.silence_secs == 120,
            c.sweep_secs == 10,
            c.enabled,
    {
        SilenceConfig {
            silence_secs: default_silence_secs(),
            sweep_secs: default_silence_sweep(),
            enabled: default_true(),
        }
    }
}

/// The whole configuration.
pub struct AegisConfig {
    pub hec: Option<HecConfig>,
    pub ingest: IngestConfig,
    pub dedup: DedupConfig,
    pub summary: SummaryConfig,
    pub queue: QueueConfig,
    pub sidecar: SidecarConfig,
    pub self_metrics: SelfMetricsConfig,
    pub mcp: McpConfig,
    pub causal: CausalConfig,
    pub memory: MemoryConfig,
    pub decision: DecisionConfig,
    pub silence: SilenceConfig,
    /// Service names pinned to ingest sources.
    pub source_to_service: Vec<(String, String)>,
    /// One-line business impact per service.
    pub services: Vec<(String, String)>,
}

impl Default for AegisConfig {
    fn default() -> (c: Self)
        ensures
            c.hec is None,
            c.dedup == DedupConfig::default_spec(),
            c.causal.window_secs == 60 && c.causal.min_services == 3 && c.causal.cooldown_secs == 300,
            c.decision.idle_to_green_secs == 300,
            c.silence.silence_secs == 120 && c.silence.sweep_secs == 10 && c.silence.enabled,
            c.memory.top_matches == 3 && c.memory.min_similarity_bp == 2500,
            !c.summary.enabled && c.summary.flush_secs == 30,
            !c.sidecar.enabled,
            c.source_to_service@.len() == 0,
            c.services@.len() == 0,
    {
        AegisConfig {
            hec: None,
            ingest: IngestConfig::default(),
            dedup: DedupConfig::default(),
            summary: SummaryConfig::default(),
            queue: QueueConfig::default(),
            sidecar: SidecarConfig::default(),
            self_metrics: SelfMetricsConfig::default(),
            mcp: McpConfig::default(),
            causal: CausalConfig::default(),
            memory: MemoryConfig::default(),
            decision: DecisionConfig::default(),
            silence: SilenceConfig::default(),
            source_to_service: Vec::new(),
            services: Vec::new(),
        }
    }
}

impl DedupConfig {
    /// The default dedup section, as a value.
    pub open spec fn default_spec() -> DedupConfig {
        DedupConfig { window_secs: 30, max_open_signatures: 4096 }
    }
}

} // verus!
