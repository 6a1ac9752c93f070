//! Silent-service detector.
//!
//! The absence of events is itself a signal. When a service that has been
//! chatty falls quiet for longer than `silence_secs`, Aegis emits a
//! `ServiceSilent` event so operators don't only learn about an outage from
//! errors that never arrive.
//!
//! A ledger of `service → (last_seen, last_sample)` is updated on every
//! `FirstOccurrence`, `Collapsed` or `Raw` event flowing past. A periodic
//! sweep flags services whose last event is older than the threshold, once
//! per idle period: the flag clears when the service talks again.

use vstd::prelude::*;
use crate::causal::{distinct_keys, key_index, lemma_key_index};
use crate::event::ProcessedEvent;
use crate::incident_memory::opt_chars;
use crate::text::str_eq;

verus! {

/// Knobs of the detector.
#[derive(Clone, Copy, Debug, PartialEq, Eq, Structural)]
pub struct SilenceParams {
    /// How long a service has to be quiet before it's flagged.
    pub silence_secs: u64,
    /// How often the sweep runs.
    pub sweep_secs: u64,
}

impl Default for SilenceParams {
    fn default() -> (p: Self)
        ensures
            p.silence_secs == 120,
            p.sweep_secs == 10,
    {
        SilenceParams { silence_secs: 120, sweep_secs: 10 }
    }
}

/// What the ledger holds for a service.
pub struct BeatView {
    pub last_seen_ms: u64,
    pub last_sample: Option<Seq<char>>,
    /// A `ServiceSilent` already went out for the current idle period.
    pub flagged: bool,
}

pub type LedgerView = Seq<(Seq<char>, BeatView)>;

/// The service, time and sample an event reports, if it is one the ledger
/// follows. A `Summary` speaks for its source (named as the pipeline names
/// the service of its lines) up to its last line, and carries no single
/// sample.
pub open spec fn heard(ev: ProcessedEvent) -> Option<(Seq<char>, u64, Option<Seq<char>>)> {
    match ev {
        ProcessedEvent::Summary { source, last_seen_ms, .. } => Some((source@, last_seen_ms, None)),
        ProcessedEvent::FirstOccurrence { service, ts_ms, line, .. } => Some(
            (service@, ts_ms, Some(line@)),
        ),
        ProcessedEvent::Raw { service, ts_ms, line, .. } => Some((service@, ts_ms, Some(line@))),
        ProcessedEvent::Collapsed { service, last_seen_ms, sample, .. } => Some(
            (service@, last_seen_ms, Some(sample@)),
        ),
        _ => None,
    }
}

fn own_sample(s: Option<&String>) -> (r: Option<String>)
    ensures
        (match r {
            Some(x) => s is Some && x@ == s->0@,
            None => s is None,
        }),
{
    match s {
        Some(x) => Some(x.clone()),
        None => None,
    }
}

/// The ledger after an event: a newer time replaces the service's beat and
/// clears its flag; an older one changes nothing. A service first heard of
/// starts from time zero.
pub open spec fn spec_on_event(v: LedgerView, ev: ProcessedEvent) -> LedgerView {
    match heard(ev) {
        Some((svc, ts, sample)) => {
            let i = key_index(v, svc);
            let b = if i >= 0 {
                v[i].1
            } else {
                BeatView { last_seen_ms: 0, last_sample: None, flagged: false }
            };
            let b2 = if ts > b.last_seen_ms {
                BeatView { last_seen_ms: ts, last_sample: sample, flagged: false }
            } else {
                b
            };
            if i >= 0 {
                v.update(i, (svc, b2))
            } else {
                v.push((svc, b2))
            }
        },
        None => v,
    }
}

/// Heard from at some point, not yet flagged, and quiet for at least
/// `silence_secs` at `now_ms`.
pub open spec fn goes_silent(b: BeatView, now_ms: u64, silence_secs: u64) -> bool {
    &&& b.last_seen_ms > 0
    &&& !b.flagged
    &&& now_ms >= b.last_seen_ms
    &&& (now_ms - b.last_seen_ms) / 1000 >= silence_secs
}

/// The ledger after a sweep: silent services are flagged.
pub open spec fn spec_swept(v: LedgerView, now_ms: u64, silence_secs: u64) -> LedgerView {
    v.map_values(
        |x: (Seq<char>, BeatView)|
            if goes_silent(x.1, now_ms, silence_secs) {
                (x.0, BeatView { flagged: true, ..x.1 })
            } else {
                x
            },
    )
}

/// The services that go silent at a sweep, in ledger order.
pub open spec fn silent_now(v: LedgerView, now_ms: u64, silence_secs: u64) -> LedgerView
    decreases v.len(),
{
    if v.len() == 0 {
        Seq::empty()
    } else if goes_silent(v.last().1, now_ms, silence_secs) {
        silent_now(v.drop_last(), now_ms, silence_secs).push(v.last())
    } else {
        silent_now(v.drop_last(), now_ms, silence_secs)
    }
}

/// `e` reports that `svc` (with beat `b`) has been quiet until `now_ms`.
pub open spec fn is_silent_event(e: ProcessedEvent, svc: Seq<char>, b: BeatView, now_ms: u64) -> bool {
    match e {
        ProcessedEvent::ServiceSilent { service, last_seen_ms, silence_ms, last_sample } => {
            &&& service@ == svc
            &&& last_seen_ms == b.last_seen_ms
            &&& silence_ms == now_ms - b.last_seen_ms
            &&& opt_chars(last_sample) == b.last_sample
        },
        _ => false,
    }
}

struct Heartbeat {
    last_seen_ms: u64,
    last_sample: Option<String>,
    flagged: bool,
}

spec fn beat_view(h: Heartbeat) -> BeatView {
    BeatView { last_seen_ms: h.last_seen_ms, last_sample: opt_chars(h.last_sample), flagged: h.flagged }
}

spec fn entry_view(e: (String, Heartbeat)) -> (Seq<char>, BeatView) {
    (e.0@, beat_view(e.1))
}

fn clone_sample(o: &Option<String>) -> (r: Option<String>)
    ensures
        opt_chars(r) == opt_chars(*o),
{
    match o {
        Some(s) => Some(s.clone()),
        None => None,
    }
}

/// The detector: a ledger of heartbeats, in order of first appearance.
///
/// The ledger is keyed by service name, a `String`; it is a vector with one
/// entry per name (the `wf` invariant) because maps keyed by strings do not
/// prove here. Its order also makes the sweep's output order definite.
pub struct SilenceDetector {
    params: SilenceParams,
    beats: Vec<(String, Heartbeat)>,
}

impl View for SilenceDetector {
    type V = LedgerView;

    closed spec fn view(&self) -> LedgerView {
        self.beats@.map_values(|e: (String, Heartbeat)| entry_view(e))
    }
}

impl SilenceDetector {
    pub closed spec fn params(&self) -> SilenceParams {
        self.params
    }

    pub closed spec fn wf(&self) -> bool {
        distinct_keys(self@)
    }

    /// A well-formed detector holds each service once.
    pub proof fn lemma_wf_keys(&self)
        requires
            self.wf(),
        ensures
            distinct_keys(self@),
    {
    }

    pub fn new(params: SilenceParams) -> (d: Self)
        ensures
            d.wf(),
            d.params() == params,
            d@ == Seq::<(Seq<char>, BeatView)>::empty(),
    {
        let d = SilenceDetector { params, beats: Vec::new() };
        assert(d@ =~= Seq::<(Seq<char>, BeatView)>::empty());
        d
    }

    /// The sweep period in seconds (at least one).
    pub fn sweep_period_secs(&self) -> (s: u64)
        ensures
            s == (if self.params().sweep_secs == 0 {
                1
            } else {
                self.params().sweep_secs
            }),
    {
        if self.params.sweep_secs == 0 {
            1
        } else {
            self.params.sweep_secs
        }
    }

    fn find(&self, service: &str) -> (r: Option<usize>)
        ensures
            (match r {
                Some(i) => i == key_index(self@, service@) && i < self@.len(),
                None => key_index(self@, service@) == -1,
            }),
    {
        let ghost v = self@;
        let mut k = self.beats.len();
        assert(v.take(k as int) =~= v);
        while k > 0
            invariant
                k <= v.len(),
                v == self@,
                key_index(v, service@) == key_index(v.take(k as int), service@),
            decreases k,
        {
            let ghost t = v.take(k as int);
            assert(t.drop_last() =~= v.take(k - 1));
            assert(t.last() == entry_view(self.beats@[k - 1]));
            if str_eq(self.beats[k - 1].0.as_str(), service) {
                return Some(k - 1);
            }
            k -= 1;
        }
        None
    }

    /// Note an event flowing past (the event itself is forwarded by the
    /// caller, unchanged).
    pub fn on_event(&mut self, ev: &ProcessedEvent)
        requires
            old(self).wf(),
        ensures
            final(self).wf(),
            final(self).params() == old(self).params(),
            final(self)@ == spec_on_event(old(self)@, *ev),
    {
        let (svc, ts, sample): (&String, u64, Option<&String>) = match ev {
            ProcessedEvent::FirstOccurrence { service, ts_ms, line, .. } => (service, *ts_ms, Some(line)),
            ProcessedEvent::Raw { service, ts_ms, line, .. } => (service, *ts_ms, Some(line)),
            ProcessedEvent::Collapsed { service, last_seen_ms, sample, .. } => (
                service,
                *last_seen_ms,
                Some(sample),
            ),
            ProcessedEvent::Summary { source, last_seen_ms, .. } => (source, *last_seen_ms, None),
            _ => {
                return ;
            },
        };
        let ghost v = self@;
        proof {
            lemma_key_index(v, svc@);
        }
        match self.find(svc.as_str()) {
            Some(i) => {
                if ts > self.beats[i].1.last_seen_ms {
                    let name = self.beats[i].0.clone();
                    self.beats.set(
                        i,
                        (name, Heartbeat { last_seen_ms: ts, last_sample: own_sample(sample), flagged: false }),
                    );
                }
                proof {
                    assert(self@ =~= spec_on_event(v, *ev));
                    assert forall|a: int, b: int| 0 <= a < b < self@.len() implies #[trigger] self@[a].0
                        != #[trigger] self@[b].0 by {
                        assert(self@[a].0 == v[a].0 && self@[b].0 == v[b].0);
                    }
                }
            },
            None => {
                let beat = if ts > 0 {
                    Heartbeat { last_seen_ms: ts, last_sample: own_sample(sample), flagged: false }
                } else {
                    Heartbeat { last_seen_ms: 0, last_sample: None, flagged: false }
                };
                self.beats.push((svc.clone(), beat));
                proof {
                    assert(self@ =~= spec_on_event(v, *ev));
                    assert forall|a: int, b: int| 0 <= a < b < self@.len() implies #[trigger] self@[a].0
                        != #[trigger] self@[b].0 by {
                        assert(self@[a] == v[a]);
                        if b < v.len() {
                            assert(self@[b] == v[b]);
                        }
                    }
                }
            },
        }
    }

    /// The periodic sweep at wall-clock `now_ms`: one `ServiceSilent` per
    /// service that has just gone quiet, in ledger order; those services are
    /// flagged until they talk again.
    pub fn on_sweep(&mut self, now_ms: u64) -> (out: Vec<ProcessedEvent>)
        requires
            old(self).wf(),
        ensures
            final(self).wf(),
            final(self).params() == old(self).params(),
            final(self)@ == spec_swept(old(self)@, now_ms, old(self).params().silence_secs),
            out@.len() == silent_now(old(self)@, now_ms, old(self).params().silence_secs).len(),
            forall|i: int|
                0 <= i < out@.len() ==> {
                    let s = silent_now(old(self)@, now_ms, old(self).params().silence_secs)[i];
                    is_silent_event(#[trigger] out@[i], s.0, s.1, now_ms)
                },
    {
        let ghost v = self@;
        let secs = self.params.silence_secs;
        let mut out: Vec<ProcessedEvent> = Vec::new();
        let mut i: usize = 0;
        while i < self.beats.len()
            invariant
                0 <= i <= self.beats@.len(),
                self.beats@.len() == v.len(),
                secs == self.params.silence_secs,
                self.params == old(self).params,
                v == old(self)@,
                forall|k: int| 0 <= k < i ==> #[trigger] self@[k] == spec_swept(v, now_ms, secs)[k],
                forall|k: int| i <= k < v.len() ==> #[trigger] self@[k] == v[k],
                out@.len() == silent_now(v.take(i as int), now_ms, secs).len(),
                forall|k: int|
                    0 <= k < out@.len() ==> {
                        let s = silent_now(v.take(i as int), now_ms, secs)[k];
                        is_silent_event(#[trigger] out@[k], s.0, s.1, now_ms)
                    },
            decreases self.beats.len() - i,
        {
            let ghost before = self@;
            let ghost pre_out = out@;
            let ghost x = v[i as int];
            assert(before[i as int] == x);
            proof {
                let t = v.take(i + 1);
                assert(t.drop_last() =~= v.take(i as int));
                assert(t.last() == x);
            }
            let b = &self.beats[i].1;
            let silent = b.last_seen_ms > 0 && !b.flagged && now_ms >= b.last_seen_ms && (now_ms
                - b.last_seen_ms) / 1000 >= secs;
            assert(silent == goes_silent(x.1, now_ms, secs));
            if silent {
                let ev = ProcessedEvent::ServiceSilent {
                    service: self.beats[i].0.clone(),
                    last_seen_ms: b.last_seen_ms,
                    silence_ms: now_ms - b.last_seen_ms,
                    last_sample: clone_sample(&b.last_sample),
                };
                out.push(ev);
                let name = self.beats[i].0.clone();
                let beat = Heartbeat {
                    last_seen_ms: self.beats[i].1.last_seen_ms,
                    last_sample: clone_sample(&self.beats[i].1.last_sample),
                    flagged: true,
                };
                self.beats.set(i, (name, beat));
                proof {
                    assert forall|k: int|
                        0 <= k < out@.len() implies {
                        let s = silent_now(v.take(i + 1), now_ms, secs)[k];
                        is_silent_event(#[trigger] out@[k], s.0, s.1, now_ms)
                    } by {
                        if k < pre_out.len() {
                            assert(out@[k] == pre_out[k]);
                        }
                    }
                }
            }
            proof {
                assert forall|k: int| 0 <= k < i + 1 implies #[trigger] self@[k] == spec_swept(
                    v,
                    now_ms,
                    secs,
                )[k] by {
                    if k < i {
                        assert(self@[k] == before[k]);
                    }
                }
                assert forall|k: int| i + 1 <= k < v.len() implies #[trigger] self@[k] == v[k] by {
                    assert(self@[k] == before[k]);
                }
            }
            i += 1;
        }
        proof {
            assert(v.take(v.len() as int) =~= v);
            assert(self@ =~= spec_swept(v, now_ms, secs));
            assert forall|a: int, b: int| 0 <= a < b < self@.len() implies #[trigger] self@[a].0
                != #[trigger] self@[b].0 by {
                assert(self@[a].0 == v[a].0 && self@[b].0 == v[b].0);
            }
        }
        out
    }
}

// ---------------------------------------------------------------------------
// Laws
// ---------------------------------------------------------------------------

/// A service is reported silent once per idle period: a service that went
/// silent at one sweep is not reported by any later sweep (until it talks
/// again).
pub proof fn law_silent_once(v: LedgerView, t1: u64, t2: u64, silence_secs: u64)
    ensures
        forall|i: int|
            0 <= i < v.len() && goes_silent(v[i].1, t1, silence_secs) ==> !goes_silent(
                #[trigger] spec_swept(v, t1, silence_secs)[i].1,
                t2,
                silence_secs,
            ),
{
}

/// A service that stops is reported: a heard, unflagged service whose last
/// event is at least the threshold old is among those the sweep reports.
pub proof fn law_quiet_service_reported(v: LedgerView, i: int, now_ms: u64, silence_secs: u64)
    requires
        0 <= i < v.len(),
        v[i].1.last_seen_ms > 0,
        !v[i].1.flagged,
        now_ms >= v[i].1.last_seen_ms + silence_secs * 1000,
    ensures
        silent_now(v, now_ms, silence_secs).contains(v[i]),
    decreases v.len(),
{
    assert((now_ms - v[i].1.last_seen_ms) / 1000 >= silence_secs as int) by (nonlinear_arith)
        requires
            now_ms - v[i].1.last_seen_ms >= silence_secs * 1000,
    ;
    let d = v.drop_last();
    let r = silent_now(v, now_ms, silence_secs);
    if i == v.len() - 1 {
        assert(v.last() == v[i]);
        assert(r[r.len() - 1] == v[i]);
    } else {
        assert(d[i] == v[i]);
        law_quiet_service_reported(d, i, now_ms, silence_secs);
        let rd = silent_now(d, now_ms, silence_secs);
        let k = choose|k: int| 0 <= k < rd.len() && rd[k] == v[i];
        assert(r[k] == v[i]);
    }
}

/// A service that is still talking is never reported: a beat younger than
/// the threshold does not go silent.
pub proof fn law_chatty_not_silent(b: BeatView, now_ms: u64, silence_secs: u64)
    requires
        now_ms < b.last_seen_ms + silence_secs * 1000,
    ensures
        !goes_silent(b, now_ms, silence_secs),
{
    if now_ms >= b.last_seen_ms {
        assert((now_ms - b.last_seen_ms) / 1000 < silence_secs as int) by (nonlinear_arith)
            requires
                now_ms - b.last_seen_ms < silence_secs * 1000,
                now_ms >= b.last_seen_ms,
        ;
    }
}

/// Talking again with a newer event moves the service's last-seen time and
/// clears its flag.
pub proof fn law_talk_clears_flag(v: LedgerView, ev: ProcessedEvent)
    requires
        distinct_keys(v),
        heard(ev) is Some,
    ensures
        ({
            let (svc, ts, sample) = heard(ev)->0;
            let w = spec_on_event(v, ev);
            let i = key_index(w, svc);
            &&& distinct_keys(w)
            &&& 0 <= i < w.len()
            &&& w[i].0 == svc
            &&& (key_index(v, svc) < 0 || ts > v[key_index(v, svc)].1.last_seen_ms) && ts > 0 ==> {
                &&& w[i].1.last_seen_ms == ts
                &&& w[i].1.last_sample == sample
                &&& !w[i].1.flagged
            }
        }),
{
    let (svc, ts, sample) = heard(ev)->0;
    lemma_key_index(v, svc);
    let j = key_index(v, svc);
    let w = spec_on_event(v, ev);
    let pos = if j >= 0 {
        j
    } else {
        v.len() as int
    };
    assert(w[pos].0 == svc);
    assert forall|a: int, b: int| 0 <= a < b < w.len() implies #[trigger] w[a].0 != #[trigger] w[b].0 by {
        if j >= 0 {
            assert(w[a].0 == v[a].0 && w[b].0 == v[b].0);
        } else {
            assert(w[a] == v[a]);
            if b < v.len() {
                assert(w[b] == v[b]);
            }
        }
    }
    lemma_key_index(w, svc);
    let i = key_index(w, svc);
    if i != pos {
        if i < pos {
            assert(w[i].0 != w[pos].0);
        } else {
            assert(w[pos].0 != w[i].0);
        }
    }
}


/// The beat of `svc` after an event heard from it at `ts` with `sample`:
/// the service is in the ledger, and a newer, non-zero time becomes its
/// last-seen time, with that sample and the flag cleared.
pub open spec fn refreshed(
    v: LedgerView,
    w: LedgerView,
    svc: Seq<char>,
    ts: u64,
    sample: Option<Seq<char>>,
) -> bool {
    let i = key_index(w, svc);
    &&& 0 <= i < w.len()
    &&& w[i].0 == svc
    &&& ts > 0 && (key_index(v, svc) < 0 || ts > v[key_index(v, svc)].1.last_seen_ms) ==> w[i].1
        == BeatView { last_seen_ms: ts, last_sample: sample, flagged: false }
}

/// Every event that speaks for a service is a sign of life: a first
/// occurrence or a raw line at its time, a collapsed window at its last
/// line, a summary (for its source) at its last line. Anything else leaves
/// the ledger as it was.
pub proof fn law_events_are_signs_of_life(v: LedgerView, ev: ProcessedEvent)
    requires
        distinct_keys(v),
    ensures
        match ev {
            ProcessedEvent::FirstOccurrence { service, ts_ms, line, .. } => refreshed(
                v,
                spec_on_event(v, ev),
                service@,
                ts_ms,
                Some(line@),
            ),
            ProcessedEvent::Raw { service, ts_ms, line, .. } => refreshed(
                v,
                spec_on_event(v, ev),
                service@,
                ts_ms,
                Some(line@),
            ),
            ProcessedEvent::Collapsed { service, last_seen_ms, sample, .. } => refreshed(
                v,
                spec_on_event(v, ev),
                service@,
                last_seen_ms,
                Some(sample@),
            ),
            ProcessedEvent::Summary { source, last_seen_ms, .. } => refreshed(
                v,
                spec_on_event(v, ev),
                source@,
                last_seen_ms,
                None,
            ),
            _ => spec_on_event(v, ev) == v,
        },
{
    if heard(ev) is Some {
        law_talk_clears_flag(v, ev);
    }
}

} // verus!
