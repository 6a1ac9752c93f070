//! Splunk HTTP Event Collector settings, and the pacing of deliveries.
//!
//! Aegis pushes its events to HEC under the `aegis:*` sourcetypes, plus its
//! own self-metrics under `aegis:selfmetric`. Batching, retries and offline
//! buffering live in the queue layer; this module holds the settings and
//! the retry back-off rule.

use vstd::prelude::*;

verus! {

/// Where and how to reach HEC.
pub struct HecConfig {
    /// Full endpoint, e.g. `https://splunk.example.com:8088/services/collector/event`.
    pub endpoint: String,
    /// HEC token (the `Authorization: Splunk <token>` value).
    pub token: String,
    /// Default index for events that don't name one.
    pub index: Option<String>,
    /// Default host field; the machine's host name when absent.
    pub host: Option<String>,
    /// Request timeout.
    pub timeout_secs: u64,
    /// Verify TLS certificates (off for local development).
    pub verify_tls: bool,
}

/// The request timeout when the configuration names none.
pub fn default_timeout() -> (r: u64)
    ensures
        r == 10,
{
    10
}

/// TLS certificates are verified unless the configuration says otherwise.
pub fn default_verify() -> (r: bool)
    ensures
        r,
{
    true
}

/// Pacing of the queue-backed sink.
pub struct HecSinkConfig {
    pub batch_size: usize,
    pub drain_interval_ms: u64,
    pub max_backoff_ms: u64,
    pub host: String,
    pub index: Option<String>,
}

impl HecSinkConfig {
    /// The default pacing (batches of 200, a drain every 500 ms, back-off
    /// capped at 30 s) for events sent as `host`.
    pub fn for_host(host: String) -> (c: Self)
        ensures
            c.batch_size == 200,
            c.drain_interval_ms == 500,
            c.max_backoff_ms == 30_000,
            c.host@ == host@,
            c.index is None,
    {
        HecSinkConfig {
            batch_size: 200,
            drain_interval_ms: 500,
            max_backoff_ms: 30_000,
            host,
            index: None,
        }
    }
}

/// Double the wait, capped at `max_ms`.
pub open spec fn spec_next_backoff(current_ms: u64, max_ms: u64) -> int {
    if 2 * current_ms > max_ms {
        max_ms as int
    } else {
        2 * current_ms
    }
}

/// The wait after a failed delivery: double the last one, capped.
pub fn next_backoff(current_ms: u64, max_ms: u64) -> (r: u64)
    ensures
        r == spec_next_backoff(current_ms, max_ms),
{
    if current_ms > max_ms / 2 {
        max_ms
    } else {
        current_ms * 2
    }
}


/// What the drain loop does after a delivery attempt.
pub struct DrainStep {
    /// Whether the gateway now counts as online.
    pub online: bool,
    /// How long to wait before the next attempt (0: go on at once).
    pub wait_ms: u64,
}

/// The drain loop's back-off between failed deliveries.
pub struct DrainPacing {
    pub backoff_ms: u64,
}

impl DrainPacing {
    /// A fresh loop waits one drain interval after a failure.
    pub fn new(cfg: &HecSinkConfig) -> (p: Self)
        ensures
            p.backoff_ms == cfg.drain_interval_ms,
    {
        DrainPacing { backoff_ms: cfg.drain_interval_ms }
    }

    /// After a delivery attempt. A delivered batch marks the gateway online
    /// and resets the back-off to the drain interval, with no wait; a failed
    /// one marks it offline, waits the current back-off and doubles it,
    /// capped.
    pub fn after_delivery(&mut self, delivered: bool, cfg: &HecSinkConfig) -> (s: DrainStep)
        ensures
            delivered ==> s == (DrainStep { online: true, wait_ms: 0 })
                && final(self).backoff_ms == cfg.drain_interval_ms,
            !delivered ==> s == (DrainStep { online: false, wait_ms: old(self).backoff_ms })
                && final(self).backoff_ms == spec_next_backoff(old(self).backoff_ms, cfg.max_backoff_ms),
    {
        if delivered {
            self.backoff_ms = cfg.drain_interval_ms;
            DrainStep { online: true, wait_ms: 0 }
        } else {
            let wait = self.backoff_ms;
            self.backoff_ms = next_backoff(wait, cfg.max_backoff_ms);
            DrainStep { online: false, wait_ms: wait }
        }
    }
}

/// The back-off grows and stays capped: from a wait at most the cap, the
/// next wait is at least as long and at most the cap, and it doubles until
/// it reaches the cap.
pub proof fn law_backoff_capped(current_ms: u64, max_ms: u64)
    requires
        current_ms <= max_ms,
    ensures
        current_ms <= spec_next_backoff(current_ms, max_ms) <= max_ms,
        2 * current_ms <= max_ms ==> spec_next_backoff(current_ms, max_ms) == 2 * current_ms,
{
}

} // verus!
