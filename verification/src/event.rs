//! Events that flow through the Aegis pipeline.
//!
//! Aegis emits these sourcetypes into Splunk:
//!
//! | sourcetype       | when                                                     |
//! |------------------|----------------------------------------------------------|
//! | `aegis:raw`      | first occurrence of a signature, or override passthrough |
//! | `aegis:metric`   | dedup window closed for a repeating signature            |
//! | `aegis:summary`  | routine-classified traffic rolled up per source          |
//! | `aegis:causal`   | multi-service incident with a probable root cause        |
//! | `aegis:decision` | the focused "next step" card the engineer sees           |
//! | `aegis:incident` | a memory entry: fingerprint + resolution (if filled in)  |
//! | `aegis:silent`   | a service that was talking has gone quiet                |
//!
//! Times are unix epoch milliseconds; confidences and similarities are
//! basis points (`10000` is certainty).

use vstd::prelude::*;
use crate::signature::Signature;
use crate::text::hex_lower;

verus! {

/// Queue drain priority: lower drains first.
pub const PRIORITY_HIGH: i64 = 0;

pub const PRIORITY_MEDIUM: i64 = 1;

pub const PRIORITY_LOW: i64 = 2;

/// The order in which a queue over its budget gives up entries: low
/// priority first, then medium, high only as a last resort.
pub fn eviction_order() -> (r: Vec<i64>)
    ensures
        r@ == seq![PRIORITY_LOW, PRIORITY_MEDIUM, PRIORITY_HIGH],
{
    let r = vec![PRIORITY_LOW, PRIORITY_MEDIUM, PRIORITY_HIGH];
    assert(r@ =~= seq![PRIORITY_LOW, PRIORITY_MEDIUM, PRIORITY_HIGH]);
    r
}

/// Output of the AI sidecar's classifier, attached to events when available.
#[derive(Debug, PartialEq)]
pub struct Classification {
    pub label: String,
    /// Classifier confidence in basis points.
    pub confidence_bp: u32,
    pub strategy: String,
}

/// A raw line as received by the ingest layer.
#[derive(Debug, PartialEq)]
pub struct IngestLine {
    /// Free-form identifier for the source (e.g. `tcp://127.0.0.1:54231`).
    pub source: String,
    /// The log line, trailing newline already stripped.
    pub text: String,
    /// Arrival time, unix epoch milliseconds.
    pub ts_ms: u64,
}

/// One entry in a causal chain: a service that broke at some offset from
/// the chain's root cause.
#[derive(Debug, PartialEq)]
pub struct CausalLink {
    pub service: String,
    pub signature: String,
    /// When the service first fired in this window (ms).
    pub ts_ms: u64,
    /// Milliseconds after the root cause this link appeared; `0` for the root.
    pub ts_offset_ms: u64,
    pub sample: String,
}

/// A match against a past incident in the memory store.
#[derive(Debug, PartialEq)]
pub struct IncidentMatch {
    pub incident_id: String,
    /// How similar the new incident is to the historical one (basis points).
    pub similarity_bp: u32,
    /// Time of the historical incident (ms).
    pub past_ts_ms: u64,
    pub past_root_cause_service: String,
    /// Cause text the engineer entered when resolving the past incident.
    pub past_cause: Option<String>,
    /// Fix text from the past incident's resolution card.
    pub past_fix: Option<String>,
    /// Minutes it took to resolve the historical incident.
    pub past_resolved_in_minutes: Option<i64>,
}

/// Overall health colour surfaced above the fold.
#[derive(Clone, Copy, Debug, PartialEq, Eq, Structural)]
pub enum HealthState {
    /// Everything quiet, dedup working, no chains active.
    Green,
    /// Trending bad: a single service misbehaving, no multi-service chain yet.
    Orange,
    /// Active incident: a multi-service chain has fired.
    Red,
}

pub open spec fn health_name(s: HealthState) -> Seq<char> {
    match s {
        HealthState::Green => "green"@,
        HealthState::Orange => "orange"@,
        HealthState::Red => "red"@,
    }
}

impl HealthState {
    pub fn as_str(&self) -> (r: &'static str)
        ensures
            r@ == health_name(*self),
    {
        match self {
            HealthState::Green => "green",
            HealthState::Orange => "orange",
            HealthState::Red => "red",
        }
    }
}

/// One of the most frequent signatures of a summary window.
#[derive(Debug, PartialEq)]
pub struct TopSig {
    pub signature: String,
    pub count: u64,
    pub sample: String,
}

/// What the dedup, causal, memory and decision engines emit downstream.
#[derive(Clone, Debug, PartialEq)]
#[allow(inconsistent_fields)]
pub enum ProcessedEvent {
    /// First time this signature has been seen in the current window.
    FirstOccurrence {
        signature: String,
        line: String,
        ts_ms: u64,
        source: String,
        /// Extracted service name (or the source when extraction failed).
        service: String,
    },
    /// Window closed for a signature seen more than once.
    Collapsed {
        signature: String,
        count: u64,
        window_ms: u64,
        first_seen_ms: u64,
        last_seen_ms: u64,
        sample: String,
        source: String,
        service: String,
        classification: Option<Classification>,
    },
    /// Raw passthrough event (override mode is active).
    Raw { line: String, ts_ms: u64, source: String, service: String },
    /// Periodic aggregate of routine-classified traffic for one source.
    Summary {
        source: String,
        window_ms: u64,
        first_seen_ms: u64,
        last_seen_ms: u64,
        suppressed_lines: u64,
        unique_signatures: u64,
        top_signatures: Vec<TopSig>,
    },
    /// Several services started failing inside the causal window; the first
    /// to fail is the probable root cause.
    CausalChain {
        chain_id: String,
        root_cause_service: String,
        /// Confidence in the root-cause attribution (basis points).
        confidence_bp: u32,
        /// All services involved, in order of first appearance.
        chain: Vec<CausalLink>,
        first_seen_ms: u64,
        last_seen_ms: u64,
        suppressed_lines: u64,
    },
    /// The focused recommendation a human acts on.
    DecisionCard {
        decision_id: String,
        ts_ms: u64,
        state: HealthState,
        chain_id: Option<String>,
        root_cause_service: Option<String>,
        headline: String,
        suggested_next_step: String,
        business_impact: Option<String>,
        similar_incidents: Vec<IncidentMatch>,
    },
    /// A fingerprint written to the incident-memory store.
    IncidentMemory {
        incident_id: String,
        chain_id: String,
        ts_ms: u64,
        root_cause_service: String,
        services: Vec<String>,
        cause: Option<String>,
        fix: Option<String>,
        resolved_at_ms: Option<u64>,
        resolved_in_minutes: Option<i64>,
    },
    /// A service that was talking has gone quiet.
    ServiceSilent {
        service: String,
        last_seen_ms: u64,
        silence_ms: u64,
        last_sample: Option<String>,
    },
}

/// The `kind` an event's HEC payload carries.
pub open spec fn spec_payload_kind(e: ProcessedEvent) -> Seq<char> {
    match e {
        ProcessedEvent::FirstOccurrence { .. } => "first_occurrence"@,
        ProcessedEvent::Raw { .. } => "raw"@,
        ProcessedEvent::Collapsed { .. } => "collapsed"@,
        ProcessedEvent::Summary { .. } => "summary"@,
        ProcessedEvent::CausalChain { .. } => "causal_chain"@,
        ProcessedEvent::DecisionCard { .. } => "decision_card"@,
        ProcessedEvent::IncidentMemory { .. } => "incident_memory"@,
        ProcessedEvent::ServiceSilent { .. } => "service_silent"@,
    }
}

/// An `IncidentMemory` event reports a resolved incident: both a cause and
/// a fix are recorded.
pub open spec fn spec_reports_resolved(e: ProcessedEvent) -> bool {
    match e {
        ProcessedEvent::IncidentMemory { cause, fix, .. } => cause is Some && fix is Some,
        _ => false,
    }
}

pub open spec fn spec_sourcetype(e: ProcessedEvent) -> Seq<char> {
    match e {
        ProcessedEvent::FirstOccurrence { .. } | ProcessedEvent::Raw { .. } => "aegis:raw"@,
        ProcessedEvent::Collapsed { .. } => "aegis:metric"@,
        ProcessedEvent::Summary { .. } => "aegis:summary"@,
        ProcessedEvent::CausalChain { .. } => "aegis:causal"@,
        ProcessedEvent::DecisionCard { .. } => "aegis:decision"@,
        ProcessedEvent::IncidentMemory { .. } => "aegis:incident"@,
        ProcessedEvent::ServiceSilent { .. } => "aegis:silent"@,
    }
}

/// Anomaly evidence and operator-facing signals drain first, metrics and
/// memory entries next, summaries last.
pub open spec fn spec_priority(e: ProcessedEvent) -> i64 {
    match e {
        ProcessedEvent::FirstOccurrence { .. }
        | ProcessedEvent::Raw { .. }
        | ProcessedEvent::CausalChain { .. }
        | ProcessedEvent::DecisionCard { .. }
        | ProcessedEvent::ServiceSilent { .. } => PRIORITY_HIGH,
        ProcessedEvent::Collapsed { .. } | ProcessedEvent::IncidentMemory { .. } => PRIORITY_MEDIUM,
        ProcessedEvent::Summary { .. } => PRIORITY_LOW,
    }
}

pub open spec fn saturating_sum(a: u64, b: u64) -> u64 {
    if a + b > u64::MAX {
        u64::MAX
    } else {
        (a + b) as u64
    }
}

/// `a - b`, or `0` when `b` is the larger.
pub open spec fn saturating_diff(a: u64, b: u64) -> u64 {
    if a >= b {
        (a - b) as u64
    } else {
        0
    }
}

/// Wall-clock time on the event (ms). A silence is dated at its end.
pub open spec fn spec_event_time(e: ProcessedEvent) -> u64 {
    match e {
        ProcessedEvent::FirstOccurrence { ts_ms, .. } => ts_ms,
        ProcessedEvent::Raw { ts_ms, .. } => ts_ms,
        ProcessedEvent::Collapsed { last_seen_ms, .. } => last_seen_ms,
        ProcessedEvent::Summary { last_seen_ms, .. } => last_seen_ms,
        ProcessedEvent::CausalChain { last_seen_ms, .. } => last_seen_ms,
        ProcessedEvent::DecisionCard { ts_ms, .. } => ts_ms,
        ProcessedEvent::IncidentMemory { ts_ms, .. } => ts_ms,
        ProcessedEvent::ServiceSilent { last_seen_ms, silence_ms, .. } => saturating_sum(
            last_seen_ms,
            silence_ms,
        ),
    }
}

/// The HEC `source` field: the ingest source for line events, the service
/// name for service-scoped events, `aegis` for a card with no root cause.
pub open spec fn spec_source(e: ProcessedEvent) -> Seq<char> {
    match e {
        ProcessedEvent::FirstOccurrence { source, .. } => source@,
        ProcessedEvent::Raw { source, .. } => source@,
        ProcessedEvent::Collapsed { source, .. } => source@,
        ProcessedEvent::Summary { source, .. } => source@,
        ProcessedEvent::CausalChain { root_cause_service, .. } => root_cause_service@,
        ProcessedEvent::DecisionCard { root_cause_service, .. } => match root_cause_service {
            Some(s) => s@,
            None => "aegis"@,
        },
        ProcessedEvent::IncidentMemory { root_cause_service, .. } => root_cause_service@,
        ProcessedEvent::ServiceSilent { service, .. } => service@,
    }
}

impl ProcessedEvent {
    /// The `kind` of the event's HEC payload.
    pub fn payload_kind(&self) -> (r: &'static str)
        ensures
            r@ == spec_payload_kind(*self),
    {
        let r = match self {
            ProcessedEvent::FirstOccurrence { .. } => "first_occurrence",
            ProcessedEvent::Raw { .. } => "raw",
            ProcessedEvent::Collapsed { .. } => "collapsed",
            ProcessedEvent::Summary { .. } => "summary",
            ProcessedEvent::CausalChain { .. } => "causal_chain",
            ProcessedEvent::DecisionCard { .. } => "decision_card",
            ProcessedEvent::IncidentMemory { .. } => "incident_memory",
            ProcessedEvent::ServiceSilent { .. } => "service_silent",
        };
        proof {
            reveal_strlit("first_occurrence");
            reveal_strlit("raw");
            reveal_strlit("collapsed");
            reveal_strlit("summary");
            reveal_strlit("causal_chain");
            reveal_strlit("decision_card");
            reveal_strlit("incident_memory");
            reveal_strlit("service_silent");
        }
        r
    }

    /// Whether the event reports a resolved incident (the payload's
    /// `resolved` flag).
    pub fn reports_resolved(&self) -> (b: bool)
        ensures
            b == spec_reports_resolved(*self),
    {
        match self {
            ProcessedEvent::IncidentMemory { cause, fix, .. } => cause.is_some() && fix.is_some(),
            _ => false,
        }
    }

    /// The hex rendering of a signature, as events carry it.
    pub fn signature_hex(sig: &Signature) -> (r: String)
        ensures
            r@ == hex_lower(sig.0@),
    {
        sig.to_hex()
    }

    /// Sourcetype this event lands under in Splunk HEC.
    pub fn sourcetype(&self) -> (r: &'static str)
        ensures
            r@ == spec_sourcetype(*self),
    {
        match self {
            ProcessedEvent::FirstOccurrence { .. } | ProcessedEvent::Raw { .. } => "aegis:raw",
            ProcessedEvent::Collapsed { .. } => "aegis:metric",
            ProcessedEvent::Summary { .. } => "aegis:summary",
            ProcessedEvent::CausalChain { .. } => "aegis:causal",
            ProcessedEvent::DecisionCard { .. } => "aegis:decision",
            ProcessedEvent::IncidentMemory { .. } => "aegis:incident",
            ProcessedEvent::ServiceSilent { .. } => "aegis:silent",
        }
    }

    /// Drain priority in the queue.
    pub fn priority(&self) -> (p: i64)
        ensures
            p == spec_priority(*self),
            PRIORITY_HIGH <= p <= PRIORITY_LOW,
    {
        match self {
            ProcessedEvent::FirstOccurrence { .. }
            | ProcessedEvent::Raw { .. }
            | ProcessedEvent::CausalChain { .. }
            | ProcessedEvent::DecisionCard { .. }
            | ProcessedEvent::ServiceSilent { .. } => PRIORITY_HIGH,
            ProcessedEvent::Collapsed { .. } | ProcessedEvent::IncidentMemory { .. } => {
                PRIORITY_MEDIUM
            },
            ProcessedEvent::Summary { .. } => PRIORITY_LOW,
        }
    }

    /// Wall-clock time on the event (ms).
    pub fn event_time(&self) -> (t: u64)
        ensures
            t == spec_event_time(*self),
    {
        match self {
            ProcessedEvent::FirstOccurrence { ts_ms, .. } => *ts_ms,
            ProcessedEvent::Raw { ts_ms, .. } => *ts_ms,
            ProcessedEvent::Collapsed { last_seen_ms, .. } => *last_seen_ms,
            ProcessedEvent::Summary { last_seen_ms, .. } => *last_seen_ms,
            ProcessedEvent::CausalChain { last_seen_ms, .. } => *last_seen_ms,
            ProcessedEvent::DecisionCard { ts_ms, .. } => *ts_ms,
            ProcessedEvent::IncidentMemory { ts_ms, .. } => *ts_ms,
            ProcessedEvent::ServiceSilent { last_seen_ms, silence_ms, .. } => last_seen_ms.saturating_add(
                *silence_ms,
            ),
        }
    }

    /// Source identifier passed through to HEC.
    pub fn source(&self) -> (r: &str)
        ensures
            r@ == spec_source(*self),
    {
        match self {
            ProcessedEvent::FirstOccurrence { source, .. } => source.as_str(),
            ProcessedEvent::Raw { source, .. } => source.as_str(),
            ProcessedEvent::Collapsed { source, .. } => source.as_str(),
            ProcessedEvent::Summary { source, .. } => source.as_str(),
            ProcessedEvent::CausalChain { root_cause_service, .. } => root_cause_service.as_str(),
            ProcessedEvent::DecisionCard { root_cause_service, .. } => match root_cause_service {
                Some(s) => s.as_str(),
                None => "aegis",
            },
            ProcessedEvent::IncidentMemory { root_cause_service, .. } => root_cause_service.as_str(),
            ProcessedEvent::ServiceSilent { service, .. } => service.as_str(),
        }
    }
}

impl Clone for Classification {
    fn clone(&self) -> (r: Self)
        ensures
            r == *self,
    {
        Classification {
            label: self.label.clone(),
            confidence_bp: self.confidence_bp,
            strategy: self.strategy.clone(),
        }
    }
}

impl Clone for IngestLine {
    fn clone(&self) -> (r: Self)
        ensures
            r == *self,
    {
        IngestLine { source: self.source.clone(), text: self.text.clone(), ts_ms: self.ts_ms }
    }
}

impl Clone for CausalLink {
    fn clone(&self) -> (r: Self)
        ensures
            r == *self,
    {
        CausalLink {
            service: self.service.clone(),
            signature: self.signature.clone(),
            ts_ms: self.ts_ms,
            ts_offset_ms: self.ts_offset_ms,
            sample: self.sample.clone(),
        }
    }
}

pub fn clone_opt_string(o: &Option<String>) -> (r: Option<String>)
    ensures
        r == *o,
{
    match o {
        Some(s) => Some(s.clone()),
        None => None,
    }
}

impl Clone for IncidentMatch {
    fn clone(&self) -> (r: Self)
        ensures
            r == *self,
    {
        IncidentMatch {
            incident_id: self.incident_id.clone(),
            similarity_bp: self.similarity_bp,
            past_ts_ms: self.past_ts_ms,
            past_root_cause_service: self.past_root_cause_service.clone(),
            past_cause: clone_opt_string(&self.past_cause),
            past_fix: clone_opt_string(&self.past_fix),
            past_resolved_in_minutes: self.past_resolved_in_minutes,
        }
    }
}

impl Clone for TopSig {
    fn clone(&self) -> (r: Self)
        ensures
            r == *self,
    {
        TopSig { signature: self.signature.clone(), count: self.count, sample: self.sample.clone() }
    }
}

pub fn clone_strings(v: &Vec<String>) -> (r: Vec<String>)
    ensures
        r@ == v@,
{
    let mut r: Vec<String> = Vec::new();
    let mut i: usize = 0;
    while i < v.len()
        invariant
            0 <= i <= v@.len(),
            r@ == v@.take(i as int),
        decreases v.len() - i,
    {
        r.push(v[i].clone());
        i += 1;
        assert(r@ =~= v@.take(i as int));
    }
    assert(r@ =~= v@);
    r
}

pub fn clone_links(v: &Vec<CausalLink>) -> (r: Vec<CausalLink>)
    ensures
        r@ == v@,
{
    let mut r: Vec<CausalLink> = Vec::new();
    let mut i: usize = 0;
    while i < v.len()
        invariant
            0 <= i <= v@.len(),
            r@ == v@.take(i as int),
        decreases v.len() - i,
    {
        r.push(v[i].clone());
        i += 1;
        assert(r@ =~= v@.take(i as int));
    }
    assert(r@ =~= v@);
    r
}

pub fn clone_matches(v: &Vec<IncidentMatch>) -> (r: Vec<IncidentMatch>)
    ensures
        r@ == v@,
{
    let mut r: Vec<IncidentMatch> = Vec::new();
    let mut i: usize = 0;
    while i < v.len()
        invariant
            0 <= i <= v@.len(),
            r@ == v@.take(i as int),
        decreases v.len() - i,
    {
        r.push(v[i].clone());
        i += 1;
        assert(r@ =~= v@.take(i as int));
    }
    assert(r@ =~= v@);
    r
}

pub fn clone_top(v: &Vec<TopSig>) -> (r: Vec<TopSig>)
    ensures
        r@ == v@,
{
    let mut r: Vec<TopSig> = Vec::new();
    let mut i: usize = 0;
    while i < v.len()
        invariant
            0 <= i <= v@.len(),
            r@ == v@.take(i as int),
        decreases v.len() - i,
    {
        r.push(v[i].clone());
        i += 1;
        assert(r@ =~= v@.take(i as int));
    }
    assert(r@ =~= v@);
    r
}

/// `a` and `b` are the same event: the same variant with equal fields,
/// lists equal element by element.
pub open spec fn same_event(a: ProcessedEvent, b: ProcessedEvent) -> bool {
    match (a, b) {
        (
            ProcessedEvent::Summary {
                source: s1,
                window_ms: w1,
                first_seen_ms: f1,
                last_seen_ms: l1,
                suppressed_lines: p1,
                unique_signatures: u1,
                top_signatures: t1,
            },
            ProcessedEvent::Summary {
                source: s2,
                window_ms: w2,
                first_seen_ms: f2,
                last_seen_ms: l2,
                suppressed_lines: p2,
                unique_signatures: u2,
                top_signatures: t2,
            },
        ) => s1 == s2 && w1 == w2 && f1 == f2 && l1 == l2 && p1 == p2 && u1 == u2 && t1@ == t2@,
        (
            ProcessedEvent::CausalChain {
                chain_id: c1,
                root_cause_service: r1,
                confidence_bp: b1,
                chain: k1,
                first_seen_ms: f1,
                last_seen_ms: l1,
                suppressed_lines: p1,
            },
            ProcessedEvent::CausalChain {
                chain_id: c2,
                root_cause_service: r2,
                confidence_bp: b2,
                chain: k2,
                first_seen_ms: f2,
                last_seen_ms: l2,
                suppressed_lines: p2,
            },
        ) => c1 == c2 && r1 == r2 && b1 == b2 && k1@ == k2@ && f1 == f2 && l1 == l2 && p1 == p2,
        (
            ProcessedEvent::DecisionCard {
                decision_id: d1,
                ts_ms: t1,
                state: st1,
                chain_id: c1,
                root_cause_service: r1,
                headline: h1,
                suggested_next_step: n1,
                business_impact: i1,
                similar_incidents: m1,
            },
            ProcessedEvent::DecisionCard {
                decision_id: d2,
                ts_ms: t2,
                state: st2,
                chain_id: c2,
                root_cause_service: r2,
                headline: h2,
                suggested_next_step: n2,
                business_impact: i2,
                similar_incidents: m2,
            },
        ) => d1 == d2 && t1 == t2 && st1 == st2 && c1 == c2 && r1 == r2 && h1 == h2 && n1 == n2
            && i1 == i2 && m1@ == m2@,
        (
            ProcessedEvent::IncidentMemory {
                incident_id: d1,
                chain_id: c1,
                ts_ms: t1,
                root_cause_service: r1,
                services: v1,
                cause: a1,
                fix: x1,
                resolved_at_ms: e1,
                resolved_in_minutes: m1,
            },
            ProcessedEvent::IncidentMemory {
                incident_id: d2,
                chain_id: c2,
                ts_ms: t2,
                root_cause_service: r2,
                services: v2,
                cause: a2,
                fix: x2,
                resolved_at_ms: e2,
                resolved_in_minutes: m2,
            },
        ) => d1 == d2 && c1 == c2 && t1 == t2 && r1 == r2 && v1@ == v2@ && a1 == a2 && x1 == x2
            && e1 == e2 && m1 == m2,
        (ProcessedEvent::Summary { .. }, _) => false,
        (ProcessedEvent::CausalChain { .. }, _) => false,
        (ProcessedEvent::DecisionCard { .. }, _) => false,
        (ProcessedEvent::IncidentMemory { .. }, _) => false,
        _ => a == b,
    }
}

/// The same optional event.
pub open spec fn same_opt_event(a: Option<ProcessedEvent>, b: Option<ProcessedEvent>) -> bool {
    match (a, b) {
        (Some(x), Some(y)) => same_event(x, y),
        (None, None) => true,
        _ => false,
    }
}

impl ProcessedEvent {
    /// A field-by-field copy of the event.
    pub fn duplicate(&self) -> (r: Self)
        ensures
            same_event(r, *self),
    {
        match self {
            ProcessedEvent::FirstOccurrence { signature, line, ts_ms, source, service } => {
                ProcessedEvent::FirstOccurrence {
                    signature: signature.clone(),
                    line: line.clone(),
                    ts_ms: *ts_ms,
                    source: source.clone(),
                    service: service.clone(),
                }
            },
            ProcessedEvent::Collapsed {
                signature,
                count,
                window_ms,
                first_seen_ms,
                last_seen_ms,
                sample,
                source,
                service,
                classification,
            } => ProcessedEvent::Collapsed {
                signature: signature.clone(),
                count: *count,
                window_ms: *window_ms,
                first_seen_ms: *first_seen_ms,
                last_seen_ms: *last_seen_ms,
                sample: sample.clone(),
                source: source.clone(),
                service: service.clone(),
                classification: match classification {
                    Some(c) => Some(c.clone()),
                    None => None,
                },
            },
            ProcessedEvent::Raw { line, ts_ms, source, service } => ProcessedEvent::Raw {
                line: line.clone(),
                ts_ms: *ts_ms,
                source: source.clone(),
                service: service.clone(),
            },
            ProcessedEvent::Summary {
                source,
                window_ms,
                first_seen_ms,
                last_seen_ms,
                suppressed_lines,
                unique_signatures,
                top_signatures,
            } => ProcessedEvent::Summary {
                source: source.clone(),
                window_ms: *window_ms,
                first_seen_ms: *first_seen_ms,
                last_seen_ms: *last_seen_ms,
                suppressed_lines: *suppressed_lines,
                unique_signatures: *unique_signatures,
                top_signatures: clone_top(top_signatures),
            },
            ProcessedEvent::CausalChain {
                chain_id,
                root_cause_service,
                confidence_bp,
                chain,
                first_seen_ms,
                last_seen_ms,
                suppressed_lines,
            } => ProcessedEvent::CausalChain {
                chain_id: chain_id.clone(),
                root_cause_service: root_cause_service.clone(),
                confidence_bp: *confidence_bp,
                chain: clone_links(chain),
                first_seen_ms: *first_seen_ms,
                last_seen_ms: *last_seen_ms,
                suppressed_lines: *suppressed_lines,
            },
            ProcessedEvent::DecisionCard {
                decision_id,
                ts_ms,
                state,
                chain_id,
                root_cause_service,
                headline,
                suggested_next_step,
                business_impact,
                similar_incidents,
            } => ProcessedEvent::DecisionCard {
                decision_id: decision_id.clone(),
                ts_ms: *ts_ms,
                state: *state,
                chain_id: clone_opt_string(chain_id),
                root_cause_service: clone_opt_string(root_cause_service),
                headline: headline.clone(),
                suggested_next_step: suggested_next_step.clone(),
                business_impact: clone_opt_string(business_impact),
                similar_incidents: clone_matches(similar_incidents),
            },
            ProcessedEvent::IncidentMemory {
                incident_id,
                chain_id,
                ts_ms,
                root_cause_service,
                services,
                cause,
                fix,
                resolved_at_ms,
                resolved_in_minutes,
            } => ProcessedEvent::IncidentMemory {
                incident_id: incident_id.clone(),
                chain_id: chain_id.clone(),
                ts_ms: *ts_ms,
                root_cause_service: root_cause_service.clone(),
                services: clone_strings(services),
                cause: clone_opt_string(cause),
                fix: clone_opt_string(fix),
                resolved_at_ms: *resolved_at_ms,
                resolved_in_minutes: *resolved_in_minutes,
            },
            ProcessedEvent::ServiceSilent { service, last_seen_ms, silence_ms, last_sample } => {
                ProcessedEvent::ServiceSilent {
                    service: service.clone(),
                    last_seen_ms: *last_seen_ms,
                    silence_ms: *silence_ms,
                    last_sample: clone_opt_string(last_sample),
                }
            },
        }
    }
}


/// Anomalies drain first and are given up last: first occurrences, raw
/// lines, causal chains, decision cards and silent services have priority
/// 0, ahead of (or level with) every event; collapsed counts and incident
/// memories have 1; routine summaries have 2, behind every event.
pub proof fn law_priority_order(e: ProcessedEvent, other: ProcessedEvent)
    ensures
        0 <= spec_priority(e) <= 2,
        (e is FirstOccurrence || e is Raw || e is CausalChain || e is DecisionCard || e is ServiceSilent)
            ==> spec_priority(e) == 0 && spec_priority(e) <= spec_priority(other),
        (e is Collapsed || e is IncidentMemory) ==> spec_priority(e) == 1,
        e is Summary ==> spec_priority(e) == 2 && spec_priority(other) <= spec_priority(e),
{
}

} // verus!
