//! Shared control state used by the data plane, the MCP server and the
//! REST API: counters, the override and diagnostic windows, the current
//! health colour and the latest decision card.
//!
//! The daemon shares one `Control` between its tasks and hands it the
//! clock readings; every rule about the state lives here.

use vstd::prelude::*;
use crate::event::{same_opt_event, HealthState, ProcessedEvent};

verus! {

/// Status snapshot returned by the `status` MCP tool and `/api/status`.
pub struct GatewayStatus {
    pub uptime_secs: u64,
    pub online: bool,
    pub override_active: bool,
    pub diagnostic_active: bool,
    pub queue_depth: u64,
    pub events_in: u64,
    pub events_out: u64,
    pub unique_signatures: u64,
    /// Current health colour (`green`, `orange`, `red`).
    pub state: String,
    /// Number of fingerprints in the incident-memory store.
    pub incidents_remembered: u64,
    /// The card the engineer should be looking at right now, if any.
    pub decision: Option<ProcessedEvent>,
}

/// The control state.
pub struct Control {
    pub started_at_secs: u64,
    pub online: bool,
    pub override_until_ms: u64,
    pub diagnostic_until_ms: u64,
    pub queue_depth: u64,
    pub events_in: u64,
    pub events_out: u64,
    pub unique_signatures: u64,
    pub incidents_remembered: u64,
    pub state: HealthState,
    pub latest_decision: Option<ProcessedEvent>,
}

/// `secs` seconds after `now_ms`, the seconds saturating.
pub open spec fn window_end(now_ms: u64, secs: u64) -> int {
    now_ms + (if secs * 1000 > u64::MAX {
        u64::MAX as int
    } else {
        secs * 1000
    })
}

/// `secs * 1000`, saturating.
fn saturating_millis(secs: u64) -> (ms: u64)
    ensures
        ms == (if secs * 1000 > u64::MAX {
            u64::MAX as int
        } else {
            secs * 1000
        }),
{
    if secs > u64::MAX / 1000 {
        u64::MAX
    } else {
        secs * 1000
    }
}

/// A window that ends at `until_ms` is open at `t`.
pub open spec fn window_open(until_ms: u64, t: u64) -> bool {
    until_ms > t
}

/// A timed mode releases itself: enabled at `now_ms` for `secs` seconds, it
/// is open at every instant before the window's end and closed from then
/// on; it is open at once unless `secs` is zero; a reset (an end of 0)
/// closes it.
pub proof fn law_timed_mode_expires(secs: u64, now_ms: u64, t: u64)
    requires
        window_end(now_ms, secs) <= u64::MAX,
    ensures
        window_open(window_end(now_ms, secs) as u64, t) <==> t < window_end(now_ms, secs),
        secs > 0 ==> window_open(window_end(now_ms, secs) as u64, now_ms),
        !window_open(0, t),
{
}

/// Whether a window of `secs` seconds opened at `now_ms` ends at a time
/// that a u64 of milliseconds can hold.
pub fn window_end_fits(now_ms: u64, secs: u64) -> (b: bool)
    ensures
        b == (window_end(now_ms, secs) <= u64::MAX),
{
    now_ms.checked_add(saturating_millis(secs)).is_some()
}

impl Control {
    /// Fresh state at `now_secs`: online, green, all counters zero, no
    /// windows open, no card.
    pub fn new(now_secs: u64) -> (c: Self)
        ensures
            c.started_at_secs == now_secs,
            c.online,
            c.override_until_ms == 0,
            c.diagnostic_until_ms == 0,
            c.queue_depth == 0,
            c.events_in == 0,
            c.events_out == 0,
            c.unique_signatures == 0,
            c.incidents_remembered == 0,
            c.state == HealthState::Green,
            c.latest_decision is None,
    {
        Control {
            started_at_secs: now_secs,
            online: true,
            override_until_ms: 0,
            diagnostic_until_ms: 0,
            queue_depth: 0,
            events_in: 0,
            events_out: 0,
            unique_signatures: 0,
            incidents_remembered: 0,
            state: HealthState::Green,
            latest_decision: None,
        }
    }

    pub fn set_online(&mut self, online: bool)
        ensures
            *final(self) == (Control { online, ..*old(self) }),
    {
        self.online = online;
    }

    /// Raw passthrough for `duration_secs` from `now_ms`. The end of the
    /// window must fit in a `u64`.
    pub fn enable_override(&mut self, duration_secs: u64, now_ms: u64)
        requires
            window_end(now_ms, duration_secs) <= u64::MAX,
        ensures
            *final(self) == (Control {
                override_until_ms: window_end(now_ms, duration_secs) as u64,
                ..*old(self)
            }),
    {
        self.override_until_ms = now_ms + saturating_millis(duration_secs);
    }

    /// Verbose diagnostics for `duration_secs` from `now_ms`. The end of the
    /// window must fit in a `u64`.
    pub fn enable_diagnostic(&mut self, duration_secs: u64, now_ms: u64)
        requires
            window_end(now_ms, duration_secs) <= u64::MAX,
        ensures
            *final(self) == (Control {
                diagnostic_until_ms: window_end(now_ms, duration_secs) as u64,
                ..*old(self)
            }),
    {
        self.diagnostic_until_ms = now_ms + saturating_millis(duration_secs);
    }

    /// The override window is open at `now_ms`.
    pub fn override_active(&self, now_ms: u64) -> (b: bool)
        ensures
            b == window_open(self.override_until_ms, now_ms),
    {
        self.override_until_ms > now_ms
    }

    /// The diagnostic window is open at `now_ms`.
    pub fn diagnostic_active(&self, now_ms: u64) -> (b: bool)
        ensures
            b == window_open(self.diagnostic_until_ms, now_ms),
    {
        self.diagnostic_until_ms > now_ms
    }

    /// Zero the counters, close both windows, go green and drop the card.
    /// The start time, the online flag and the memory gauge stay.
    pub fn reset(&mut self)
        ensures
            *final(self) == (Control {
                queue_depth: 0,
                events_in: 0,
                events_out: 0,
                unique_signatures: 0,
                override_until_ms: 0,
                diagnostic_until_ms: 0,
                state: HealthState::Green,
                latest_decision: None,
                ..*old(self)
            }),
    {
        self.queue_depth = 0;
        self.events_in = 0;
        self.events_out = 0;
        self.unique_signatures = 0;
        self.override_until_ms = 0;
        self.diagnostic_until_ms = 0;
        self.state = HealthState::Green;
        self.latest_decision = None;
    }

    /// Count `n` lines in (the counter wraps, as an atomic add does).
    pub fn observe_in(&mut self, n: u64)
        ensures
            *final(self) == (Control { events_in: old(self).events_in.wrapping_add(n), ..*old(self) }),
    {
        self.events_in = self.events_in.wrapping_add(n);
    }

    /// Count `n` events out (the counter wraps, as an atomic add does).
    pub fn observe_out(&mut self, n: u64)
        ensures
            *final(self) == (Control { events_out: old(self).events_out.wrapping_add(n), ..*old(self) }),
    {
        self.events_out = self.events_out.wrapping_add(n);
    }

    pub fn set_queue_depth(&mut self, n: u64)
        ensures
            *final(self) == (Control { queue_depth: n, ..*old(self) }),
    {
        self.queue_depth = n;
    }

    pub fn set_unique_signatures(&mut self, n: u64)
        ensures
            *final(self) == (Control { unique_signatures: n, ..*old(self) }),
    {
        self.unique_signatures = n;
    }

    /// Update the gauge of fingerprints in the incident-memory store.
    pub fn set_incidents_remembered(&mut self, n: u64)
        ensures
            *final(self) == (Control { incidents_remembered: n, ..*old(self) }),
    {
        self.incidents_remembered = n;
    }

    pub fn set_state(&mut self, state: HealthState)
        ensures
            *final(self) == (Control { state, ..*old(self) }),
    {
        self.state = state;
    }

    pub fn state(&self) -> (s: HealthState)
        ensures
            s == self.state,
    {
        self.state
    }

    /// Keep `ev` as the latest card.
    pub fn set_latest_decision(&mut self, ev: Option<ProcessedEvent>)
        ensures
            *final(self) == (Control { latest_decision: ev, ..*old(self) }),
    {
        self.latest_decision = ev;
    }

    /// The latest card.
    pub fn latest_decision(&self) -> (r: &Option<ProcessedEvent>)
        ensures
            *r == self.latest_decision,
    {
        &self.latest_decision
    }

    /// A snapshot at `now_secs` / `now_ms`, carrying a copy of the latest
    /// card.
    pub fn snapshot(&self, now_secs: u64, now_ms: u64) -> (s: GatewayStatus)
        ensures
            s.uptime_secs == (if now_secs >= self.started_at_secs {
                now_secs - self.started_at_secs
            } else {
                0
            }),
            s.online == self.online,
            s.override_active == window_open(self.override_until_ms, now_ms),
            s.diagnostic_active == window_open(self.diagnostic_until_ms, now_ms),
            s.queue_depth == self.queue_depth,
            s.events_in == self.events_in,
            s.events_out == self.events_out,
            s.unique_signatures == self.unique_signatures,
            s.state@ == crate::event::health_name(self.state),
            s.incidents_remembered == self.incidents_remembered,
            same_opt_event(s.decision, self.latest_decision),
    {
        let decision = match &self.latest_decision {
            Some(ev) => Some(ev.duplicate()),
            None => None,
        };
        GatewayStatus {
            uptime_secs: now_secs.saturating_sub(self.started_at_secs),
            online: self.online,
            override_active: self.override_active(now_ms),
            diagnostic_active: self.diagnostic_active(now_ms),
            queue_depth: self.queue_depth,
            events_in: self.events_in,
            events_out: self.events_out,
            unique_signatures: self.unique_signatures,
            state: self.state.as_str().to_string(),
            incidents_remembered: self.incidents_remembered,
            decision,
        }
    }
}

} // verus!
