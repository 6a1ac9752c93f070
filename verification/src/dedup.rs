//! Windowed semantic dedup engine.
//!
//! Behaviour:
//!   * The first time a signature is seen in the open table, a
//!     `FirstOccurrence` goes out immediately with the full raw line, so an
//!     operator always has incident context.
//!   * Later occurrences within the window bump the entry's count.
//!   * When the window closes (nothing has touched the entry for the
//!     window, or it has been held for twice the window), an entry with
//!     `count > 1` becomes one `Collapsed` metric event; an entry seen once
//!     is dropped silently (its first occurrence already covered it).
//!   * While override mode is active, dedup is bypassed: every line goes
//!     out as a `Raw` event.
//!   * When the open table is full, the oldest entry is flushed early.
//!   * With the AI sidecar, each *new* signature is classified once; the
//!     label rides on the eventual `Collapsed` event, and with
//!     routine-summarisation on, routine collapses are rolled into
//!     per-source `Summary` events instead.
//!
//! Every line is attributed to a service: a pinned name for its source
//! first, else what the line itself says, else (for continuation lines)
//! the last service seen on that source.
//!
//! The engine is a state machine: the daemon feeds it lines, sidecar
//! answers and clock ticks, and sends what it returns.

use vstd::prelude::*;
use crate::event::{saturating_diff, saturating_sum, Classification, IngestLine, ProcessedEvent};
use crate::service::{extract_full, opt_view, spec_extract_full};
use crate::signature::{compute, spec_compute, Signature};
use crate::summary::{
    empty_accumulator, nonempty_slots, spec_table_observe, summary_matches, AccumulatorView,
    SummaryTable,
};
use crate::table::{distinct_names, lemma_set_get, spec_get, spec_set, NameTable, TableView};
use crate::text::{hex_lower, str_eq};

verus! {

// ---------------------------------------------------------------------------
// Model
// ---------------------------------------------------------------------------

/// What the engine holds for one open signature.
pub struct EntryView {
    pub sig: Seq<u8>,
    pub first_seen_mono_ms: u64,
    pub first_seen_ms: u64,
    pub last_seen_mono_ms: u64,
    pub last_seen_ms: u64,
    pub count: u64,
    /// The first line seen.
    pub sample: Seq<char>,
    pub source: Seq<char>,
    pub service: Seq<char>,
}

pub struct ClassView {
    pub label: Seq<char>,
    pub confidence_bp: u32,
    pub strategy: Seq<char>,
}

pub open spec fn class_view(c: Classification) -> ClassView {
    ClassView { label: c.label@, confidence_bp: c.confidence_bp, strategy: c.strategy@ }
}

pub open spec fn opt_class_view(c: Option<Classification>) -> Option<ClassView> {
    match c {
        Some(x) => Some(class_view(x)),
        None => None,
    }
}

pub type ClassTable = Seq<(Seq<u8>, ClassView)>;

pub type SummaryView = Seq<(Seq<char>, AccumulatorView)>;

/// The engine's state.
pub struct DedupView {
    /// Open entries, in order of opening; one per signature.
    pub open: Seq<EntryView>,
    /// Sidecar labels waiting for their signature's window to close.
    pub classes: ClassTable,
    pub summaries: SummaryView,
    /// The last service each source was attributed to.
    pub last_service: TableView,
}

/// The engine's settings.
pub struct DedupSettings {
    pub window_secs: u64,
    pub max_open_signatures: usize,
    pub sidecar_enabled: bool,
    pub summarize_routine: bool,
    pub summary_flush_secs: u64,
    pub source_to_service: TableView,
}

/// What the engine sends, by its views.
pub enum Emission {
    First { sig: Seq<u8>, line: Seq<char>, ts_ms: u64, source: Seq<char>, service: Seq<char> },
    Raw { line: Seq<char>, ts_ms: u64, source: Seq<char>, service: Seq<char> },
    Collapsed { entry: EntryView, cls: Option<ClassView> },
    Summary { source: Seq<char>, acc: AccumulatorView },
}

/// `e` is the event that `m` describes.
pub open spec fn emitted(e: ProcessedEvent, m: Emission) -> bool {
    match m {
        Emission::First { sig, line, ts_ms, source, service } => match e {
            ProcessedEvent::FirstOccurrence { signature: s, line: l, ts_ms: t, source: so, service: sv } => {
                &&& s@ == hex_lower(sig)
                &&& l@ == line
                &&& t == ts_ms
                &&& so@ == source
                &&& sv@ == service
            },
            _ => false,
        },
        Emission::Raw { line, ts_ms, source, service } => match e {
            ProcessedEvent::Raw { line: l, ts_ms: t, source: so, service: sv } => {
                &&& l@ == line
                &&& t == ts_ms
                &&& so@ == source
                &&& sv@ == service
            },
            _ => false,
        },
        Emission::Collapsed { entry, cls } => match e {
            ProcessedEvent::Collapsed {
                signature,
                count,
                window_ms,
                first_seen_ms,
                last_seen_ms,
                sample,
                source,
                service,
                classification,
            } => {
                &&& signature@ == hex_lower(entry.sig)
                &&& count == entry.count
                &&& window_ms == saturating_diff(entry.last_seen_ms, entry.first_seen_ms)
                &&& first_seen_ms == entry.first_seen_ms
                &&& last_seen_ms == entry.last_seen_ms
                &&& sample@ == entry.sample
                &&& source@ == entry.source
                &&& service@ == entry.service
                &&& opt_class_view(classification) == cls
            },
            _ => false,
        },
        Emission::Summary { source, acc } => summary_matches(e, source, acc),
    }
}

/// `out` are the events `ms` describe, in order.
pub open spec fn emits(out: Seq<ProcessedEvent>, ms: Seq<Emission>) -> bool {
    &&& out.len() == ms.len()
    &&& forall|i: int| 0 <= i < out.len() ==> emitted(#[trigger] out[i], ms[i])
}

/// Index of the open entry for `sig`, or `-1`.
pub open spec fn sig_index(open: Seq<EntryView>, sig: Seq<u8>) -> int
    decreases open.len(),
{
    if open.len() == 0 {
        -1
    } else if open.last().sig == sig {
        open.len() - 1
    } else {
        sig_index(open.drop_last(), sig)
    }
}

pub open spec fn distinct_sigs(open: Seq<EntryView>) -> bool {
    forall|i: int, j: int| 0 <= i < j < open.len() ==> #[trigger] open[i].sig != #[trigger] open[j].sig
}

/// Index of the label for `sig`, or `-1`.
pub open spec fn class_index(cs: ClassTable, sig: Seq<u8>) -> int
    decreases cs.len(),
{
    if cs.len() == 0 {
        -1
    } else if cs.last().0 == sig {
        cs.len() - 1
    } else {
        class_index(cs.drop_last(), sig)
    }
}

pub open spec fn distinct_class_sigs(cs: ClassTable) -> bool {
    forall|i: int, j: int| 0 <= i < j < cs.len() ==> #[trigger] cs[i].0 != #[trigger] cs[j].0
}

/// The label for `sig` taken out of the table.
pub open spec fn take_class(cs: ClassTable, sig: Seq<u8>) -> (Option<ClassView>, ClassTable) {
    let i = class_index(cs, sig);
    if i >= 0 {
        (Some(cs[i].1), cs.remove(i))
    } else {
        (None, cs)
    }
}

/// The table with `sig` labelled `c` (replacing an earlier label).
pub open spec fn put_class(cs: ClassTable, sig: Seq<u8>, c: ClassView) -> ClassTable {
    let i = class_index(cs, sig);
    if i >= 0 {
        cs.update(i, (sig, c))
    } else {
        cs.push((sig, c))
    }
}

pub open spec fn is_routine(cls: Option<ClassView>) -> bool {
    cls is Some && cls->0.label == "routine"@
}

/// What closing an entry yields: nothing for a single line; a summary
/// observation for a routine-labelled one when summarising; else a
/// `Collapsed` event.
pub open spec fn spec_emit(e: EntryView, cls: Option<ClassView>, summarize: bool, sums: SummaryView) -> (
    Seq<Emission>,
    SummaryView,
) {
    if e.count <= 1 {
        (Seq::empty(), sums)
    } else if summarize && is_routine(cls) {
        (
            Seq::empty(),
            spec_table_observe(
                sums,
                e.source,
                hex_lower(e.sig),
                e.count,
                e.sample,
                e.first_seen_ms,
                e.last_seen_ms,
            ),
        )
    } else {
        (seq![Emission::Collapsed { entry: e, cls }], sums)
    }
}

/// Labels, summaries and output after closing some entries.
pub struct Closing {
    pub kept: Seq<EntryView>,
    pub classes: ClassTable,
    pub summaries: SummaryView,
    pub out: Seq<Emission>,
}

/// Close entry `e`: its label is taken out and it is emitted.
pub open spec fn close_one(c: Closing, e: EntryView, summarize: bool) -> Closing {
    let (cls, cs) = take_class(c.classes, e.sig);
    let (m, s) = spec_emit(e, cls, summarize, c.summaries);
    Closing { kept: c.kept, classes: cs, summaries: s, out: c.out + m }
}

/// Go through `entries` in order, closing those that `done` selects and
/// keeping the others.
pub open spec fn close_where(
    entries: Seq<EntryView>,
    start: Closing,
    summarize: bool,
    done: spec_fn(EntryView) -> bool,
) -> Closing
    decreases entries.len(),
{
    if entries.len() == 0 {
        start
    } else {
        let c = close_where(entries.drop_last(), start, summarize, done);
        let e = entries.last();
        if done(e) {
            close_one(c, e, summarize)
        } else {
            Closing { kept: c.kept.push(e), ..c }
        }
    }
}

/// The window, at least one second.
pub open spec fn window_secs_of(s: DedupSettings) -> u64 {
    if s.window_secs == 0 {
        1
    } else {
        s.window_secs
    }
}

/// Untouched for the window, or held for twice the window (elapsed times
/// in whole seconds of the monotonic clock).
pub open spec fn expired(e: EntryView, now_mono_ms: u64, window_secs: u64) -> bool {
    ||| saturating_diff(now_mono_ms, e.last_seen_mono_ms) / 1000 >= window_secs
    ||| saturating_diff(now_mono_ms, e.first_seen_mono_ms) / 1000 >= 2 * window_secs
}

pub open spec fn expired_at(now_mono_ms: u64, window_secs: u64) -> spec_fn(EntryView) -> bool {
    |e: EntryView| expired(e, now_mono_ms, window_secs)
}

pub open spec fn always() -> spec_fn(EntryView) -> bool {
    |e: EntryView| true
}

pub open spec fn start_closing(v: DedupView) -> Closing {
    Closing { kept: Seq::empty(), classes: v.classes, summaries: v.summaries, out: Seq::empty() }
}

/// Index of the oldest open entry (the first of the oldest, by opening
/// time on the monotonic clock).
pub open spec fn oldest_index(open: Seq<EntryView>) -> int
    decreases open.len(),
{
    if open.len() <= 1 {
        0
    } else {
        let j = oldest_index(open.drop_last());
        if open.last().first_seen_mono_ms < open[j].first_seen_mono_ms {
            open.len() - 1
        } else {
            j
        }
    }
}

/// The service a line is attributed to.
pub open spec fn line_service(v: DedupView, s: DedupSettings, source: Seq<char>, text: Seq<char>) -> Seq<
    char,
> {
    spec_extract_full(
        text,
        source,
        spec_get(s.source_to_service, source),
        spec_get(v.last_service, source),
    )
}

/// The result of one step: the new state, what is sent, and whether the
/// line's signature is to be classified by the sidecar.
pub struct Step {
    pub view: DedupView,
    pub out: Seq<Emission>,
    pub classify: bool,
}

/// One ingested line.
pub open spec fn spec_on_line(
    v: DedupView,
    s: DedupSettings,
    source: Seq<char>,
    text: Seq<char>,
    ts_ms: u64,
    now_mono_ms: u64,
    override_active: bool,
) -> Step {
    let svc = line_service(v, s, source, text);
    let v1 = DedupView { last_service: spec_set(v.last_service, source, svc), ..v };
    if override_active {
        Step {
            view: v1,
            out: seq![Emission::Raw { line: text, ts_ms, source, service: svc }],
            classify: false,
        }
    } else {
        let sig = spec_compute(text);
        let i = sig_index(v1.open, sig);
        if i >= 0 {
            let e = v1.open[i];
            let bumped = EntryView {
                last_seen_mono_ms: now_mono_ms,
                last_seen_ms: ts_ms,
                count: saturating_sum(e.count, 1),
                ..e
            };
            Step { view: DedupView { open: v1.open.update(i, bumped), ..v1 }, out: Seq::empty(), classify: false }
        } else {
            let evict = v1.open.len() >= s.max_open_signatures && v1.open.len() > 0;
            let k = oldest_index(v1.open);
            let c = if evict {
                close_one(start_closing(v1), v1.open[k], s.summarize_routine)
            } else {
                start_closing(v1)
            };
            let open1 = if evict {
                v1.open.remove(k)
            } else {
                v1.open
            };
            let entry = EntryView {
                sig,
                first_seen_mono_ms: now_mono_ms,
                first_seen_ms: ts_ms,
                last_seen_mono_ms: now_mono_ms,
                last_seen_ms: ts_ms,
                count: 1,
                sample: text,
                source,
                service: svc,
            };
            Step {
                view: DedupView {
                    open: open1.push(entry),
                    classes: c.classes,
                    summaries: c.summaries,
                    last_service: v1.last_service,
                },
                out: c.out.push(Emission::First { sig, line: text, ts_ms, source, service: svc }),
                classify: s.sidecar_enabled && class_index(c.classes, sig) < 0,
            }
        }
    }
}

/// One clock tick: expired entries are closed, in order of opening.
pub open spec fn spec_on_tick(v: DedupView, s: DedupSettings, now_mono_ms: u64) -> Step {
    let c = close_where(
        v.open,
        start_closing(v),
        s.summarize_routine,
        expired_at(now_mono_ms, window_secs_of(s)),
    );
    Step {
        view: DedupView { open: c.kept, classes: c.classes, summaries: c.summaries, ..v },
        out: c.out,
        classify: false,
    }
}

/// A drained summary table: the same sources, every accumulator empty.
pub open spec fn drained(sums: SummaryView) -> SummaryView {
    sums.map_values(|x: (Seq<char>, AccumulatorView)| (x.0, empty_accumulator()))
}

/// One `Summary` per source that saw anything since the last drain.
pub open spec fn summary_emissions(sums: SummaryView) -> Seq<Emission> {
    nonempty_slots(sums).map_values(
        |x: (Seq<char>, AccumulatorView)| Emission::Summary { source: x.0, acc: x.1 },
    )
}

/// The periodic summary flush (only when summarising routine traffic).
pub open spec fn spec_on_summary_tick(v: DedupView, s: DedupSettings) -> Step {
    if s.summarize_routine {
        Step {
            view: DedupView { summaries: drained(v.summaries), ..v },
            out: summary_emissions(v.summaries),
            classify: false,
        }
    } else {
        Step { view: v, out: Seq::empty(), classify: false }
    }
}

/// Shutdown: every open entry is closed in order, the labels are dropped,
/// and the summaries get one last flush.
pub open spec fn spec_flush_all(v: DedupView, s: DedupSettings) -> Step {
    let c = close_where(v.open, start_closing(v), s.summarize_routine, always());
    if s.summarize_routine {
        Step {
            view: DedupView {
                open: Seq::empty(),
                classes: Seq::empty(),
                summaries: drained(c.summaries),
                last_service: v.last_service,
            },
            out: c.out + summary_emissions(c.summaries),
            classify: false,
        }
    } else {
        Step {
            view: DedupView {
                open: Seq::empty(),
                classes: Seq::empty(),
                summaries: c.summaries,
                last_service: v.last_service,
            },
            out: c.out,
            classify: false,
        }
    }
}

// ---------------------------------------------------------------------------
// Lemmas
// ---------------------------------------------------------------------------

pub proof fn lemma_emits_concat(a: Seq<ProcessedEvent>, b: Seq<ProcessedEvent>, ma: Seq<Emission>, mb: Seq<Emission>)
    requires
        emits(a, ma),
        emits(b, mb),
    ensures
        emits(a + b, ma + mb),
{
    assert forall|i: int| 0 <= i < (a + b).len() implies emitted(#[trigger] (a + b)[i], (ma + mb)[i]) by {
        if i < a.len() {
            assert((a + b)[i] == a[i]);
            assert((ma + mb)[i] == ma[i]);
        } else {
            assert((a + b)[i] == b[i - a.len()]);
            assert((ma + mb)[i] == mb[i - a.len()]);
        }
    }
}

proof fn lemma_sig_index(open: Seq<EntryView>, sig: Seq<u8>)
    ensures
        -1 <= sig_index(open, sig) < open.len(),
        sig_index(open, sig) >= 0 ==> open[sig_index(open, sig)].sig == sig,
        sig_index(open, sig) == -1 ==> forall|i: int| 0 <= i < open.len() ==> #[trigger] open[i].sig != sig,
    decreases open.len(),
{
    if open.len() > 0 {
        lemma_sig_index(open.drop_last(), sig);
        if sig_index(open, sig) == -1 {
            assert forall|i: int| 0 <= i < open.len() implies #[trigger] open[i].sig != sig by {
                if i < open.len() - 1 {
                    assert(open[i] == open.drop_last()[i]);
                }
            }
        }
    }
}

proof fn lemma_class_index(cs: ClassTable, sig: Seq<u8>)
    ensures
        -1 <= class_index(cs, sig) < cs.len(),
        class_index(cs, sig) >= 0 ==> cs[class_index(cs, sig)].0 == sig,
        class_index(cs, sig) == -1 ==> forall|i: int| 0 <= i < cs.len() ==> #[trigger] cs[i].0 != sig,
    decreases cs.len(),
{
    if cs.len() > 0 {
        lemma_class_index(cs.drop_last(), sig);
        if class_index(cs, sig) == -1 {
            assert forall|i: int| 0 <= i < cs.len() implies #[trigger] cs[i].0 != sig by {
                if i < cs.len() - 1 {
                    assert(cs[i] == cs.drop_last()[i]);
                }
            }
        }
    }
}

proof fn lemma_oldest_index(open: Seq<EntryView>)
    requires
        open.len() > 0,
    ensures
        0 <= oldest_index(open) < open.len(),
        forall|i: int| 0 <= i < open.len() ==> open[oldest_index(open)].first_seen_mono_ms <= (
        #[trigger] open[i]).first_seen_mono_ms,
    decreases open.len(),
{
    if open.len() > 1 {
        lemma_oldest_index(open.drop_last());
        let j = oldest_index(open.drop_last());
        assert(open[j] == open.drop_last()[j]);
        assert forall|i: int| 0 <= i < open.len() implies open[oldest_index(open)].first_seen_mono_ms <= (
        #[trigger] open[i]).first_seen_mono_ms by {
            if i < open.len() - 1 {
                assert(open[i] == open.drop_last()[i]);
            }
        }
    }
}

/// Closing entries keeps the others in order, each of them from the input;
/// distinct signatures stay distinct.
proof fn lemma_close_where_kept(
    entries: Seq<EntryView>,
    start: Closing,
    summarize: bool,
    done: spec_fn(EntryView) -> bool,
)
    requires
        start.kept.len() == 0,
        distinct_sigs(entries),
    ensures
        forall|x: EntryView| #[trigger]
            close_where(entries, start, summarize, done).kept.contains(x) ==> entries.contains(x),
        distinct_sigs(close_where(entries, start, summarize, done).kept),
    decreases entries.len(),
{
    if entries.len() > 0 {
        let pre = entries.drop_last();
        assert(distinct_sigs(pre)) by {
            assert forall|i: int, j: int| 0 <= i < j < pre.len() implies #[trigger] pre[i].sig
                != #[trigger] pre[j].sig by {
                assert(pre[i] == entries[i] && pre[j] == entries[j]);
            }
        }
        lemma_close_where_kept(pre, start, summarize, done);
        let c = close_where(pre, start, summarize, done);
        let e = entries.last();
        assert forall|x: EntryView| #[trigger] pre.contains(x) implies entries.contains(x) by {
            let j = choose|j: int| 0 <= j < pre.len() && pre[j] == x;
            assert(entries[j] == x);
        }
        if !done(e) {
            let k = c.kept.push(e);
            assert forall|x: EntryView| #[trigger] k.contains(x) implies entries.contains(x) by {
                let j = choose|j: int| 0 <= j < k.len() && k[j] == x;
                if j < c.kept.len() {
                    assert(c.kept[j] == x);
                    assert(c.kept.contains(x));
                } else {
                    assert(entries[entries.len() - 1] == x);
                }
            }
            assert forall|a: int, b: int| 0 <= a < b < k.len() implies #[trigger] k[a].sig
                != #[trigger] k[b].sig by {
                if b == k.len() - 1 {
                    let x = k[a];
                    assert(c.kept[a] == x);
                    assert(c.kept.contains(x));
                    let j = choose|j: int| 0 <= j < pre.len() && pre[j] == x;
                    assert(entries[j] == x);
                    assert(entries[j].sig != entries[entries.len() - 1].sig);
                } else {
                    assert(k[a] == c.kept[a] && k[b] == c.kept[b]);
                }
            }
        }
    }
}

/// Closing every entry keeps none.
proof fn lemma_close_where_empty_kept(entries: Seq<EntryView>, start: Closing, summarize: bool)
    requires
        start.kept.len() == 0,
    ensures
        close_where(entries, start, summarize, always()).kept.len() == 0,
    decreases entries.len(),
{
    if entries.len() > 0 {
        lemma_close_where_empty_kept(entries.drop_last(), start, summarize);
    }
}

proof fn lemma_take_class_distinct(cs: ClassTable, sig: Seq<u8>)
    requires
        distinct_class_sigs(cs),
    ensures
        distinct_class_sigs(take_class(cs, sig).1),
{
    lemma_class_index(cs, sig);
    let i = class_index(cs, sig);
    if i >= 0 {
        let r = cs.remove(i);
        assert forall|a: int, b: int| 0 <= a < b < r.len() implies #[trigger] r[a].0 != #[trigger] r[b].0 by {
            let a2 = if a < i { a } else { a + 1 };
            let b2 = if b < i { b } else { b + 1 };
            assert(r[a] == cs[a2] && r[b] == cs[b2]);
        }
    }
}

proof fn lemma_put_class_distinct(cs: ClassTable, sig: Seq<u8>, c: ClassView)
    requires
        distinct_class_sigs(cs),
    ensures
        distinct_class_sigs(put_class(cs, sig, c)),
{
    lemma_class_index(cs, sig);
    let i = class_index(cs, sig);
    let w = put_class(cs, sig, c);
    assert forall|a: int, b: int| 0 <= a < b < w.len() implies #[trigger] w[a].0 != #[trigger] w[b].0 by {
        if i >= 0 {
            if a != i && b != i {
                assert(w[a] == cs[a] && w[b] == cs[b]);
            } else if a == i {
                assert(w[b] == cs[b]);
            } else {
                assert(w[a] == cs[a]);
            }
        } else {
            assert(w[a] == cs[a]);
            if b < cs.len() {
                assert(w[b] == cs[b]);
            }
        }
    }
}

// ---------------------------------------------------------------------------
// Laws
// ---------------------------------------------------------------------------

/// While override mode is active, every line goes out as one `Raw` event
/// and the open table, labels and summaries are untouched.
pub proof fn law_override_passes_raw(
    v: DedupView,
    s: DedupSettings,
    source: Seq<char>,
    text: Seq<char>,
    ts_ms: u64,
    now_mono_ms: u64,
)
    ensures
        ({
            let r = spec_on_line(v, s, source, text, ts_ms, now_mono_ms, true);
            &&& r.out == seq![Emission::Raw { line: text, ts_ms, source, service: line_service(v, s, source, text) }]
            &&& r.view.open == v.open
            &&& r.view.classes == v.classes
            &&& r.view.summaries == v.summaries
            &&& !r.classify
        }),
{
}

/// A line whose signature is not open goes out at once, raw, as a
/// `FirstOccurrence` (after at most one early flush of the oldest entry),
/// and its signature is opened with a count of one.
pub proof fn law_new_signature_first_occurrence(
    v: DedupView,
    s: DedupSettings,
    source: Seq<char>,
    text: Seq<char>,
    ts_ms: u64,
    now_mono_ms: u64,
)
    requires
        sig_index(v.open, spec_compute(text)) < 0,
    ensures
        ({
            let r = spec_on_line(v, s, source, text, ts_ms, now_mono_ms, false);
            let svc = line_service(v, s, source, text);
            &&& 1 <= r.out.len() <= 2
            &&& r.out.last() == Emission::First { sig: spec_compute(text), line: text, ts_ms, source, service: svc }
            &&& r.view.open.len() > 0
            &&& r.view.open.last().sig == spec_compute(text)
            &&& r.view.open.last().count == 1
            &&& r.view.open.last().sample == text
        }),
{
    let c0 = start_closing(DedupView { last_service: spec_set(v.last_service, source, line_service(v, s, source, text)), ..v });
    let k = oldest_index(v.open);
    if v.open.len() > 0 {
        lemma_oldest_index(v.open);
        let e = v.open[k];
        let (cls, cs) = take_class(c0.classes, e.sig);
        let (m, sums) = spec_emit(e, cls, s.summarize_routine, c0.summaries);
        assert(m.len() <= 1);
    }
}

/// A repeat of an open signature is only counted: nothing goes out, and its
/// entry's count and last-seen times move.
pub proof fn law_repeat_is_counted(
    v: DedupView,
    s: DedupSettings,
    source: Seq<char>,
    text: Seq<char>,
    ts_ms: u64,
    now_mono_ms: u64,
)
    requires
        sig_index(v.open, spec_compute(text)) >= 0,
    ensures
        ({
            let r = spec_on_line(v, s, source, text, ts_ms, now_mono_ms, false);
            let i = sig_index(v.open, spec_compute(text));
            &&& r.out.len() == 0
            &&& r.view.open.len() == v.open.len()
            &&& r.view.open[i].count == saturating_sum(v.open[i].count, 1)
            &&& r.view.open[i].first_seen_ms == v.open[i].first_seen_ms
            &&& r.view.open[i].last_seen_ms == ts_ms
            &&& r.view.open[i].sample == v.open[i].sample
        }),
{
    lemma_sig_index(v.open, spec_compute(text));
}

/// The open table never grows past `max_open_signatures` (or one entry,
/// when that is zero).
pub proof fn law_open_table_bounded(
    v: DedupView,
    s: DedupSettings,
    source: Seq<char>,
    text: Seq<char>,
    ts_ms: u64,
    now_mono_ms: u64,
    override_active: bool,
)
    requires
        v.open.len() <= (if s.max_open_signatures == 0 {
            1
        } else {
            s.max_open_signatures as int
        }),
    ensures
        spec_on_line(v, s, source, text, ts_ms, now_mono_ms, override_active).view.open.len() <= (
        if s.max_open_signatures == 0 {
            1
        } else {
            s.max_open_signatures as int
        }),
{
    let bound: int = if s.max_open_signatures == 0 {
        1
    } else {
        s.max_open_signatures as int
    };
    let r = spec_on_line(v, s, source, text, ts_ms, now_mono_ms, override_active);
    let svc = line_service(v, s, source, text);
    let v1 = DedupView { last_service: spec_set(v.last_service, source, svc), ..v };
    if !override_active {
        let sig = spec_compute(text);
        if sig_index(v1.open, sig) < 0 {
            let evict = v1.open.len() >= s.max_open_signatures && v1.open.len() > 0;
            if evict {
                lemma_oldest_index(v1.open);
                let k = oldest_index(v1.open);
                assert(v1.open.remove(k).len() == v1.open.len() - 1);
                assert(r.view.open.len() == v1.open.len());
            } else {
                assert(r.view.open.len() == v1.open.len() + 1);
            }
        } else {
            lemma_sig_index(v1.open, sig);
            assert(r.view.open.len() == v1.open.len());
        }
    }
}

/// A signature seen only once leaves silently when its window closes: its
/// first occurrence already covered it.
pub proof fn law_single_line_closes_silently(c: Closing, e: EntryView, summarize: bool)
    requires
        e.count <= 1,
    ensures
        close_one(c, e, summarize).out == c.out,
        close_one(c, e, summarize).summaries == c.summaries,
{
    assert(c.out + Seq::<Emission>::empty() =~= c.out);
}

/// A repeated signature closes into exactly one `Collapsed` event carrying
/// its count and label, unless routine summarisation rolls it into the
/// summary of its source.
pub proof fn law_repeat_closes_once(c: Closing, e: EntryView, summarize: bool)
    requires
        e.count > 1,
    ensures
        ({
            let cls = take_class(c.classes, e.sig).0;
            let r = close_one(c, e, summarize);
            if summarize && is_routine(cls) {
                &&& r.out == c.out
                &&& r.summaries == spec_table_observe(
                    c.summaries,
                    e.source,
                    hex_lower(e.sig),
                    e.count,
                    e.sample,
                    e.first_seen_ms,
                    e.last_seen_ms,
                )
            } else {
                &&& r.out == c.out.push(Emission::Collapsed { entry: e, cls })
                &&& r.summaries == c.summaries
            }
        }),
{
    assert(c.out + Seq::<Emission>::empty() =~= c.out);
    assert(c.out + seq![Emission::Collapsed { entry: e, cls: take_class(c.classes, e.sig).0 }]
        =~= c.out.push(Emission::Collapsed { entry: e, cls: take_class(c.classes, e.sig).0 }));
}

proof fn lemma_close_where_kept_not_done(
    entries: Seq<EntryView>,
    start: Closing,
    summarize: bool,
    done: spec_fn(EntryView) -> bool,
)
    requires
        forall|k: int| 0 <= k < start.kept.len() ==> !done(#[trigger] start.kept[k]),
    ensures
        forall|k: int|
            0 <= k < close_where(entries, start, summarize, done).kept.len() ==> !done(
                #[trigger] close_where(entries, start, summarize, done).kept[k],
            ),
    decreases entries.len(),
{
    if entries.len() > 0 {
        lemma_close_where_kept_not_done(entries.drop_last(), start, summarize, done);
        let c = close_where(entries.drop_last(), start, summarize, done);
        let e = entries.last();
        let r = close_where(entries, start, summarize, done);
        if done(e) {
            assert(r.kept == close_one(c, e, summarize).kept);
            assert(r.kept == c.kept);
        } else {
            assert(r.kept == c.kept.push(e));
            assert forall|k: int| 0 <= k < r.kept.len() implies !done(#[trigger] r.kept[k]) by {
                if k < c.kept.len() {
                    assert(r.kept[k] == c.kept[k]);
                }
            }
        }
    }
}

/// After a tick, no open entry is past its window.
pub proof fn law_tick_leaves_no_expired(v: DedupView, s: DedupSettings, now_mono_ms: u64)
    ensures
        forall|k: int|
            0 <= k < spec_on_tick(v, s, now_mono_ms).view.open.len() ==> !expired(
                #[trigger] spec_on_tick(v, s, now_mono_ms).view.open[k],
                now_mono_ms,
                window_secs_of(s),
            ),
{
    lemma_close_where_kept_not_done(
        v.open,
        start_closing(v),
        s.summarize_routine,
        expired_at(now_mono_ms, window_secs_of(s)),
    );
    let kept = spec_on_tick(v, s, now_mono_ms).view.open;
    assert forall|k: int| 0 <= k < kept.len() implies !expired(#[trigger] kept[k], now_mono_ms, window_secs_of(s)) by {
        assert(!(expired_at(now_mono_ms, window_secs_of(s)))(kept[k]));
    }
}

/// Taking one signature's label out of a table leaves every other
/// signature's label as it was.
proof fn lemma_take_class_other(cs: ClassTable, s1: Seq<u8>, s2: Seq<u8>)
    requires
        distinct_class_sigs(cs),
        s1 != s2,
    ensures
        take_class(take_class(cs, s1).1, s2).0 == take_class(cs, s2).0,
{
    lemma_class_index(cs, s1);
    lemma_class_index(cs, s2);
    let i1 = class_index(cs, s1);
    if i1 >= 0 {
        let r = cs.remove(i1);
        lemma_class_index(r, s2);
        let i2 = class_index(cs, s2);
        let j = class_index(r, s2);
        if i2 >= 0 {
            assert(i2 != i1);
            let k = if i2 < i1 { i2 } else { i2 - 1 };
            assert(r[k] == cs[i2]);
            assert(j >= 0);
            let j2 = if j < i1 { j } else { j + 1 };
            assert(r[j] == cs[j2]);
            if j2 != i2 {
                if j2 < i2 {
                    assert(cs[j2].0 != cs[i2].0);
                } else {
                    assert(cs[i2].0 != cs[j2].0);
                }
            }
        } else if j >= 0 {
            let j2 = if j < i1 { j } else { j + 1 };
            assert(r[j] == cs[j2]);
            assert(cs[j2].0 != s2);
        }
    }
}

/// Whether closing `e` sends an event of its own: a repeated signature not
/// rolled into its source's routine summary (labels as held in `cs`).
pub open spec fn reported_at_close(cs: ClassTable, summarize: bool) -> spec_fn(EntryView) -> bool {
    |e: EntryView| e.count > 1 && !(summarize && is_routine(take_class(cs, e.sig).0))
}

/// The `Collapsed` event for `e`, with the label held for it in `cs`.
pub open spec fn collapsed_with_label(cs: ClassTable) -> spec_fn(EntryView) -> Emission {
    |e: EntryView| Emission::Collapsed { entry: e, cls: take_class(cs, e.sig).0 }
}

/// Closing every entry sends, after what was already out, one `Collapsed`
/// per reported entry, in order; the labels of signatures not among the
/// entries stay as they were.
proof fn lemma_close_all_out(entries: Seq<EntryView>, start: Closing, summarize: bool)
    requires
        distinct_sigs(entries),
        distinct_class_sigs(start.classes),
    ensures
        close_where(entries, start, summarize, always()).out == start.out + entries.filter(
            reported_at_close(start.classes, summarize),
        ).map_values(collapsed_with_label(start.classes)),
        distinct_class_sigs(close_where(entries, start, summarize, always()).classes),
        forall|sig: Seq<u8>|
            (forall|j: int| 0 <= j < entries.len() ==> entries[j].sig != sig) ==> #[trigger] take_class(
                close_where(entries, start, summarize, always()).classes,
                sig,
            ).0 == take_class(start.classes, sig).0,
    decreases entries.len(),
{
    let p = reported_at_close(start.classes, summarize);
    let f = collapsed_with_label(start.classes);
    if entries.len() == 0 {
        reveal_with_fuel(Seq::filter, 1);
        assert(entries.filter(p).map_values(f) =~= Seq::<Emission>::empty());
        assert(start.out + Seq::<Emission>::empty() =~= start.out);
    } else {
        let pre = entries.drop_last();
        let e = entries.last();
        assert(distinct_sigs(pre)) by {
            assert forall|a: int, b: int| 0 <= a < b < pre.len() implies #[trigger] pre[a].sig
                != #[trigger] pre[b].sig by {
                assert(pre[a] == entries[a] && pre[b] == entries[b]);
            }
        }
        lemma_close_all_out(pre, start, summarize);
        let c = close_where(pre, start, summarize, always());
        assert forall|j: int| 0 <= j < pre.len() implies pre[j].sig != e.sig by {
            assert(pre[j] == entries[j]);
            assert(entries[j].sig != entries[entries.len() - 1].sig);
        }
        let cls = take_class(c.classes, e.sig).0;
        assert(cls == take_class(start.classes, e.sig).0);
        let r = close_where(entries, start, summarize, always());
        assert(r == close_one(c, e, summarize));
        lemma_take_class_distinct(c.classes, e.sig);
        assert forall|sig: Seq<u8>|
            (forall|j: int| 0 <= j < entries.len() ==> entries[j].sig != sig) implies #[trigger] take_class(
                r.classes,
                sig,
            ).0 == take_class(start.classes, sig).0 by {
            assert(entries[entries.len() - 1].sig != sig);
            assert forall|j: int| 0 <= j < pre.len() implies pre[j].sig != sig by {
                assert(pre[j] == entries[j]);
            }
            lemma_take_class_other(c.classes, e.sig, sig);
        }
        reveal_with_fuel(Seq::filter, 1);
        let fp = pre.filter(p);
        assert(entries.drop_last() == pre);
        if p(e) {
            assert(entries.filter(p) == fp.push(e));
            assert(fp.push(e).map_values(f) =~= fp.map_values(f).push(f(e)));
            assert(r.out =~= c.out + seq![Emission::Collapsed { entry: e, cls }]);
            assert(start.out + fp.map_values(f).push(f(e)) =~= (start.out + fp.map_values(f))
                + seq![f(e)]);
        } else {
            assert(entries.filter(p) == fp);
            assert(r.out =~= c.out + Seq::<Emission>::empty());
        }
    }
}

/// Shutdown loses nothing that was counted: every repeated signature still
/// open is reported, in order of opening, as one `Collapsed` event carrying
/// its count, sample, times and label, unless routine summarisation rolls
/// it into its source's summary (whose flush then follows); signatures seen
/// once send nothing more, and nothing stays open.
pub proof fn law_flush_reports_every_repeat(v: DedupView, s: DedupSettings)
    requires
        distinct_sigs(v.open),
        distinct_class_sigs(v.classes),
    ensures
        ({
            let out = spec_flush_all(v, s).out;
            let reported = v.open.filter(reported_at_close(v.classes, s.summarize_routine)).map_values(
                collapsed_with_label(v.classes),
            );
            &&& reported.len() <= out.len()
            &&& out.take(reported.len() as int) == reported
            &&& !s.summarize_routine ==> out == reported
            &&& forall|i: int| reported.len() <= i < out.len() ==> #[trigger] out[i] is Summary
        }),
        spec_flush_all(v, s).view.open.len() == 0,
{
    let c = close_where(v.open, start_closing(v), s.summarize_routine, always());
    lemma_close_all_out(v.open, start_closing(v), s.summarize_routine);
    let reported = v.open.filter(reported_at_close(v.classes, s.summarize_routine)).map_values(
        collapsed_with_label(v.classes),
    );
    assert(c.out =~= reported);
    if s.summarize_routine {
        let out = c.out + summary_emissions(c.summaries);
        assert(out.take(reported.len() as int) =~= reported);
        assert forall|i: int| reported.len() <= i < out.len() implies #[trigger] out[i] is Summary by {
            assert(out[i] == summary_emissions(c.summaries)[i - reported.len()]);
        }
    } else {
        assert(c.out.take(reported.len() as int) =~= reported);
    }
}

/// The last entry with `sig` is at `p` when nothing after `p` has it.
proof fn lemma_sig_index_is(open: Seq<EntryView>, sig: Seq<u8>, p: int)
    requires
        0 <= p < open.len(),
        open[p].sig == sig,
        forall|j: int| p < j < open.len() ==> (#[trigger] open[j]).sig != sig,
    ensures
        sig_index(open, sig) == p,
    decreases open.len(),
{
    if p < open.len() - 1 {
        assert(open[open.len() - 1].sig != sig);
        let d = open.drop_last();
        assert forall|j: int| p < j < d.len() implies (#[trigger] d[j]).sig != sig by {
            assert(d[j] == open[j]);
        }
        assert(d[p] == open[p]);
        lemma_sig_index_is(d, sig, p);
    }
}

/// Nothing after the entry `sig_index` finds has that signature.
proof fn lemma_sig_index_after(open: Seq<EntryView>, sig: Seq<u8>)
    ensures
        forall|j: int| sig_index(open, sig) < j < open.len() ==> (#[trigger] open[j]).sig != sig,
    decreases open.len(),
{
    if open.len() > 0 && open.last().sig != sig {
        let d = open.drop_last();
        lemma_sig_index_after(d, sig);
        lemma_sig_index(d, sig);
        assert forall|j: int| sig_index(open, sig) < j < open.len() implies (#[trigger] open[j]).sig != sig by {
            if j < open.len() - 1 {
                assert(open[j] == d[j]);
            }
        }
    }
}

/// An ingested line, by its fields: source, text, wall-clock time and
/// monotonic time.
pub type LineView = (Seq<char>, Seq<char>, u64, u64);

/// Lines fed one after another with override off and no tick in between:
/// the state after them and everything sent, in order.
pub open spec fn spec_run_lines(v: DedupView, s: DedupSettings, lines: Seq<LineView>) -> Step
    decreases lines.len(),
{
    if lines.len() == 0 {
        Step { view: v, out: Seq::empty(), classify: false }
    } else {
        let r = spec_run_lines(v, s, lines.drop_last());
        let l = lines.last();
        let t = spec_on_line(r.view, s, l.0, l.1, l.2, l.3, false);
        Step { view: t.view, out: r.out + t.out, classify: t.classify }
    }
}

/// One signature's life in the open table: from its first line on, while it
/// stays open, the lines of that signature send exactly one
/// `FirstOccurrence`, for the first line (before it, at most one earlier
/// window of another signature may be flushed to make room), and are
/// counted in one entry that keeps the first line. When that entry closes,
/// it sends one `Collapsed` carrying the count of its lines if there was
/// more than one line, and nothing for a single line.
pub proof fn law_signature_lifetime(v: DedupView, s: DedupSettings, lines: Seq<LineView>, sig: Seq<u8>)
    requires
        lines.len() >= 1,
        lines.len() < u64::MAX,
        forall|k: int| 0 <= k < lines.len() ==> spec_compute((#[trigger] lines[k]).1) == sig,
        sig_index(v.open, sig) < 0,
    ensures
        ({
            let r = spec_run_lines(v, s, lines);
            let i = sig_index(r.view.open, sig);
            let e = r.view.open[i];
            &&& 0 <= i < r.view.open.len()
            &&& e.sig == sig
            &&& e.count == lines.len()
            &&& e.sample == lines[0].1
            &&& e.source == lines[0].0
            &&& e.first_seen_ms == lines[0].2
            &&& e.last_seen_ms == lines.last().2
            &&& 1 <= r.out.len() <= 2
            &&& r.out.last() == Emission::First {
                sig,
                line: lines[0].1,
                ts_ms: lines[0].2,
                source: lines[0].0,
                service: line_service(v, s, lines[0].0, lines[0].1),
            }
            &&& r.out.len() == 2 ==> (r.out[0] matches Emission::Collapsed { entry, .. } && entry.sig != sig)
            &&& forall|c: Closing|
                #![trigger close_one(c, e, false)]
                close_one(c, e, false).out == (if lines.len() > 1 {
                    c.out.push(Emission::Collapsed { entry: e, cls: take_class(c.classes, sig).0 })
                } else {
                    c.out
                })
        }),
    decreases lines.len(),
{
    let r = spec_run_lines(v, s, lines);
    if lines.len() == 1 {
        let l = lines[0];
        assert(lines.drop_last() =~= Seq::<LineView>::empty());
        assert(l == lines.last());
        let r0 = spec_run_lines(v, s, lines.drop_last());
        assert(r0.view == v && r0.out == Seq::<Emission>::empty());
        let svc = line_service(v, s, l.0, l.1);
        let v1 = DedupView { last_service: spec_set(v.last_service, l.0, svc), ..v };
        lemma_sig_index(v.open, sig);
        assert(sig_index(v1.open, sig) < 0);
        let evict = v1.open.len() >= s.max_open_signatures && v1.open.len() > 0;
        let k = oldest_index(v1.open);
        let c = if evict {
            close_one(start_closing(v1), v1.open[k], s.summarize_routine)
        } else {
            start_closing(v1)
        };
        let open1 = if evict { v1.open.remove(k) } else { v1.open };
        if evict {
            lemma_oldest_index(v1.open);
            assert(v1.open[k].sig != sig);
            let (cls, cs) = take_class(start_closing(v1).classes, v1.open[k].sig);
            let (m, sm) = spec_emit(v1.open[k], cls, s.summarize_routine, start_closing(v1).summaries);
            assert(m.len() <= 1);
            assert(c.out == Seq::<Emission>::empty() + m);
            if m.len() == 1 {
                assert(m[0] == Emission::Collapsed { entry: v1.open[k], cls });
            }
        }
        let t = spec_on_line(r0.view, s, l.0, l.1, l.2, l.3, false);
        assert(t.out == c.out.push(Emission::First { sig, line: l.1, ts_ms: l.2, source: l.0, service: svc }));
        assert(r.out =~= t.out);
        let np = open1.push(EntryView {
            sig,
            first_seen_mono_ms: l.3,
            first_seen_ms: l.2,
            last_seen_mono_ms: l.3,
            last_seen_ms: l.2,
            count: 1,
            sample: l.1,
            source: l.0,
            service: svc,
        });
        assert(r.view.open == np);
        lemma_sig_index_is(np, sig, np.len() - 1);
        let e = np[np.len() - 1];
        assert forall|c: Closing| #![trigger close_one(c, e, false)] close_one(c, e, false).out == c.out by {
            law_single_line_closes_silently(c, e, false);
        }
    } else {
        let d = lines.drop_last();
        assert forall|k: int| 0 <= k < d.len() implies spec_compute((#[trigger] d[k]).1) == sig by {
            assert(d[k] == lines[k]);
        }
        law_signature_lifetime(v, s, d, sig);
        let rd = spec_run_lines(v, s, d);
        let i = sig_index(rd.view.open, sig);
        let l = lines.last();
        assert(spec_compute(lines[lines.len() - 1].1) == sig);
        let svc = line_service(rd.view, s, l.0, l.1);
        let v1 = DedupView { last_service: spec_set(rd.view.last_service, l.0, svc), ..rd.view };
        let ed = rd.view.open[i];
        let bumped = EntryView {
            last_seen_mono_ms: l.3,
            last_seen_ms: l.2,
            count: saturating_sum(ed.count, 1),
            ..ed
        };
        let t = spec_on_line(rd.view, s, l.0, l.1, l.2, l.3, false);
        assert(t.out == Seq::<Emission>::empty());
        assert(r.out =~= rd.out);
        let nu = v1.open.update(i, bumped);
        assert(r.view.open == nu);
        lemma_sig_index_after(rd.view.open, sig);
        assert forall|j: int| i < j < nu.len() implies (#[trigger] nu[j]).sig != sig by {
            assert(nu[j] == rd.view.open[j]);
        }
        lemma_sig_index_is(nu, sig, i);
        assert(d[0] == lines[0]);
        let e = nu[i];
        assert(e.count == lines.len());
        assert forall|c: Closing| #![trigger close_one(c, e, false)] close_one(c, e, false).out == c.out.push(
            Emission::Collapsed { entry: e, cls: take_class(c.classes, sig).0 },
        ) by {
            law_repeat_closes_once(c, e, false);
        }
    }
}

/// How many of `lines` have signature `sig`.
pub open spec fn count_sig(lines: Seq<LineView>, sig: Seq<u8>) -> nat
    decreases lines.len(),
{
    if lines.len() == 0 {
        0
    } else {
        count_sig(lines.drop_last(), sig) + (if spec_compute(lines.last().1) == sig {
            1nat
        } else {
            0
        })
    }
}

proof fn lemma_count_sig_le(lines: Seq<LineView>, sig: Seq<u8>)
    ensures
        count_sig(lines, sig) <= lines.len(),
    decreases lines.len(),
{
    if lines.len() > 0 {
        lemma_count_sig_le(lines.drop_last(), sig);
    }
}

/// `m` is about signature `sig`: its first occurrence or its collapsed
/// window.
pub open spec fn concerns(m: Emission, sig: Seq<u8>) -> bool {
    match m {
        Emission::First { sig: g, .. } => g == sig,
        Emission::Collapsed { entry, .. } => entry.sig == sig,
        _ => false,
    }
}

/// What was sent about `sig`, in order.
pub open spec fn sent_about(out: Seq<Emission>, sig: Seq<u8>) -> Seq<Emission> {
    out.filter(|m: Emission| concerns(m, sig))
}

/// One signature's life among other lines: from its first line on, while
/// the open table never fills (no window is flushed early), everything sent
/// about that signature is one `FirstOccurrence` for its first line, and
/// its entry counts all of its lines and keeps the first. When that entry
/// closes, it sends one `Collapsed` with that count if there was more than
/// one line, and nothing for a single line.
pub proof fn law_signature_lifetime_among_others(
    v: DedupView,
    s: DedupSettings,
    lines: Seq<LineView>,
    sig: Seq<u8>,
)
    requires
        lines.len() >= 1,
        lines.len() < u64::MAX,
        spec_compute(lines[0].1) == sig,
        sig_index(v.open, sig) < 0,
        v.open.len() + lines.len() <= s.max_open_signatures,
    ensures
        ({
            let r = spec_run_lines(v, s, lines);
            let i = sig_index(r.view.open, sig);
            let e = r.view.open[i];
            &&& 0 <= i < r.view.open.len()
            &&& r.view.open.len() <= v.open.len() + lines.len()
            &&& e.sig == sig
            &&& e.count == count_sig(lines, sig)
            &&& e.sample == lines[0].1
            &&& e.source == lines[0].0
            &&& e.first_seen_ms == lines[0].2
            &&& sent_about(r.out, sig) == seq![
                Emission::First {
                    sig,
                    line: lines[0].1,
                    ts_ms: lines[0].2,
                    source: lines[0].0,
                    service: line_service(v, s, lines[0].0, lines[0].1),
                },
            ]
            &&& forall|c: Closing|
                #![trigger close_one(c, e, false)]
                close_one(c, e, false).out == (if count_sig(lines, sig) > 1 {
                    c.out.push(Emission::Collapsed { entry: e, cls: take_class(c.classes, sig).0 })
                } else {
                    c.out
                })
        }),
    decreases lines.len(),
{
    let r = spec_run_lines(v, s, lines);
    let first = Emission::First {
        sig,
        line: lines[0].1,
        ts_ms: lines[0].2,
        source: lines[0].0,
        service: line_service(v, s, lines[0].0, lines[0].1),
    };
    if lines.len() == 1 {
        let l = lines[0];
        assert(lines.drop_last() =~= Seq::<LineView>::empty());
        assert(l == lines.last());
        let svc = line_service(v, s, l.0, l.1);
        let v1 = DedupView { last_service: spec_set(v.last_service, l.0, svc), ..v };
        lemma_sig_index(v.open, sig);
        assert(!(v1.open.len() >= s.max_open_signatures));
        assert(r.out =~= seq![first]);
        let np = v1.open.push(EntryView {
            sig,
            first_seen_mono_ms: l.3,
            first_seen_ms: l.2,
            last_seen_mono_ms: l.3,
            last_seen_ms: l.2,
            count: 1,
            sample: l.1,
            source: l.0,
            service: svc,
        });
        assert(r.view.open == np);
        lemma_sig_index_is(np, sig, np.len() - 1);
        assert(count_sig(lines, sig) == count_sig(lines.drop_last(), sig) + 1);
        reveal_with_fuel(Seq::filter, 2);
        assert(seq![first].drop_last() =~= Seq::<Emission>::empty());
        assert(sent_about(r.out, sig) =~= seq![first]);
        let e = np[np.len() - 1];
        assert forall|c: Closing| #![trigger close_one(c, e, false)] close_one(c, e, false).out == c.out by {
            law_single_line_closes_silently(c, e, false);
        }
    } else {
        let d = lines.drop_last();
        assert(d[0] == lines[0]);
        law_signature_lifetime_among_others(v, s, d, sig);
        let rd = spec_run_lines(v, s, d);
        let i = sig_index(rd.view.open, sig);
        let l = lines.last();
        let g = spec_compute(l.1);
        let svc = line_service(rd.view, s, l.0, l.1);
        let v1 = DedupView { last_service: spec_set(rd.view.last_service, l.0, svc), ..rd.view };
        let t = spec_on_line(rd.view, s, l.0, l.1, l.2, l.3, false);
        assert(r.out == rd.out + t.out);
        assert(r.view == t.view);
        lemma_sig_index_after(rd.view.open, sig);
        lemma_sig_index(rd.view.open, g);
        let j = sig_index(rd.view.open, g);
        let ed = rd.view.open[i];
        Seq::filter_distributes_over_add(rd.out, t.out, |m: Emission| concerns(m, sig));
        if j >= 0 {
            let ej = rd.view.open[j];
            let bumped = EntryView {
                last_seen_mono_ms: l.3,
                last_seen_ms: l.2,
                count: saturating_sum(ej.count, 1),
                ..ej
            };
            let nu = v1.open.update(j, bumped);
            assert(t.view.open == nu);
            assert(t.out == Seq::<Emission>::empty());
            reveal_with_fuel(Seq::filter, 1);
            assert(sent_about(t.out, sig) =~= Seq::<Emission>::empty());
            assert(sent_about(r.out, sig) =~= sent_about(rd.out, sig));
            if g == sig {
                assert(j == i);
                assert forall|jj: int| i < jj < nu.len() implies (#[trigger] nu[jj]).sig != sig by {
                    assert(nu[jj] == rd.view.open[jj]);
                }
                lemma_sig_index_is(nu, sig, i);
                assert(count_sig(lines, sig) == count_sig(d, sig) + 1);
                lemma_count_sig_le(d, sig);
                assert(nu[i] == bumped);
            } else {
                assert(j != i);
                assert forall|jj: int| i < jj < nu.len() implies (#[trigger] nu[jj]).sig != sig by {
                    if jj != j {
                        assert(nu[jj] == rd.view.open[jj]);
                    }
                }
                assert(nu[i] == ed);
                lemma_sig_index_is(nu, sig, i);
                assert(count_sig(lines, sig) == count_sig(d, sig));
            }
        } else {
            assert(g != sig);
            assert(!(v1.open.len() >= s.max_open_signatures));
            let entry = EntryView {
                sig: g,
                first_seen_mono_ms: l.3,
                first_seen_ms: l.2,
                last_seen_mono_ms: l.3,
                last_seen_ms: l.2,
                count: 1,
                sample: l.1,
                source: l.0,
                service: svc,
            };
            let np = v1.open.push(entry);
            assert(t.view.open == np);
            assert(t.out =~= seq![Emission::First { sig: g, line: l.1, ts_ms: l.2, source: l.0, service: svc }]);
            reveal_with_fuel(Seq::filter, 2);
            assert(t.out.drop_last() =~= Seq::<Emission>::empty());
            assert(sent_about(t.out, sig) =~= Seq::<Emission>::empty());
            assert(sent_about(r.out, sig) =~= sent_about(rd.out, sig));
            assert forall|jj: int| i < jj < np.len() implies (#[trigger] np[jj]).sig != sig by {
                if jj < rd.view.open.len() {
                    assert(np[jj] == rd.view.open[jj]);
                }
            }
            assert(np[i] == ed);
            lemma_sig_index_is(np, sig, i);
            assert(count_sig(lines, sig) == count_sig(d, sig));
        }
        let e = r.view.open[i];
        if count_sig(lines, sig) > 1 {
            assert forall|c: Closing| #![trigger close_one(c, e, false)] close_one(c, e, false).out == c.out.push(
                Emission::Collapsed { entry: e, cls: take_class(c.classes, sig).0 },
            ) by {
                law_repeat_closes_once(c, e, false);
            }
        } else {
            assert forall|c: Closing| #![trigger close_one(c, e, false)] close_one(c, e, false).out == c.out by {
                law_single_line_closes_silently(c, e, false);
            }
        }
    }
}

/// Each line is attributed by the full extractor: the service pinned to
/// its source, else the one the line names, else (for a continuation line)
/// the service of the previous line from that source, else the source. The
/// first occurrence or raw copy it sends carries that service, and it
/// becomes the source's last service.
pub proof fn law_line_service(
    v: DedupView,
    s: DedupSettings,
    source: Seq<char>,
    text: Seq<char>,
    ts_ms: u64,
    now_mono_ms: u64,
    override_active: bool,
)
    requires
        distinct_names(v.last_service),
    ensures
        ({
            let r = spec_on_line(v, s, source, text, ts_ms, now_mono_ms, override_active);
            let svc = spec_extract_full(
                text,
                source,
                spec_get(s.source_to_service, source),
                spec_get(v.last_service, source),
            );
            &&& spec_get(r.view.last_service, source) == Some(svc)
            &&& r.out.len() > 0 ==> (r.out.last() matches Emission::First { service, .. } && service == svc)
                || (r.out.last() matches Emission::Raw { service, .. } && service == svc)
        }),
{
    let svc = line_service(v, s, source, text);
    lemma_set_get(v.last_service, source, svc, source);
}

// ---------------------------------------------------------------------------
// Engine
// ---------------------------------------------------------------------------

/// Settings of the dedup engine.
pub struct DedupParams {
    pub window_secs: u64,
    pub max_open_signatures: usize,
    /// Classify each new signature with the AI sidecar.
    pub sidecar_enabled: bool,
    /// Roll routine-classified collapses into periodic `Summary` events
    /// instead of forwarding them (needs the sidecar for labels).
    pub summarize_routine: bool,
    /// How often the summaries are drained.
    pub summary_flush_secs: u64,
    /// Service names pinned to ingest sources.
    pub source_to_service: NameTable,
}

pub open spec fn settings_of(p: DedupParams) -> DedupSettings {
    DedupSettings {
        window_secs: p.window_secs,
        max_open_signatures: p.max_open_signatures,
        sidecar_enabled: p.sidecar_enabled,
        summarize_routine: p.summarize_routine,
        summary_flush_secs: p.summary_flush_secs,
        source_to_service: p.source_to_service@,
    }
}

struct OpenEntry {
    sig: Signature,
    first_seen_mono_ms: u64,
    first_seen_ms: u64,
    last_seen_mono_ms: u64,
    last_seen_ms: u64,
    count: u64,
    sample: String,
    source: String,
    service: String,
}

spec fn entry_view(e: OpenEntry) -> EntryView {
    EntryView {
        sig: e.sig.0@,
        first_seen_mono_ms: e.first_seen_mono_ms,
        first_seen_ms: e.first_seen_ms,
        last_seen_mono_ms: e.last_seen_mono_ms,
        last_seen_ms: e.last_seen_ms,
        count: e.count,
        sample: e.sample@,
        source: e.source@,
        service: e.service@,
    }
}

impl OpenEntry {
    fn dup(&self) -> (r: Self)
        ensures
            entry_view(r) == entry_view(*self),
    {
        OpenEntry {
            sig: self.sig,
            first_seen_mono_ms: self.first_seen_mono_ms,
            first_seen_ms: self.first_seen_ms,
            last_seen_mono_ms: self.last_seen_mono_ms,
            last_seen_ms: self.last_seen_ms,
            count: self.count,
            sample: self.sample.clone(),
            source: self.source.clone(),
            service: self.service.clone(),
        }
    }
}

spec fn class_pair_view(c: (Signature, Classification)) -> (Seq<u8>, ClassView) {
    (c.0.0@, class_view(c.1))
}

/// What one ingested line produces.
pub struct LineOutput {
    /// Events to send, in order.
    pub events: Vec<ProcessedEvent>,
    /// A new signature to classify with the sidecar, with its line.
    pub classify: Option<(Signature, String)>,
}

/// The dedup engine's state.
///
/// The open windows and the labels are keyed by signature and kept as
/// vectors with one entry per signature (the `wf` invariant), in order of
/// opening. A hash map would walk its entries in an order that depends on
/// the hasher, and the windows that close on a tick or an eviction would
/// go out in that order; the vector makes the order of the output definite,
/// and the contracts state it.
pub struct DedupEngine {
    params: DedupParams,
    open: Vec<OpenEntry>,
    classifications: Vec<(Signature, Classification)>,
    summaries: SummaryTable,
    last_service: NameTable,
}

impl View for DedupEngine {
    type V = DedupView;

    closed spec fn view(&self) -> DedupView {
        DedupView {
            open: self.open@.map_values(|e: OpenEntry| entry_view(e)),
            classes: self.classifications@.map_values(|c: (Signature, Classification)| class_pair_view(c)),
            summaries: self.summaries@,
            last_service: self.last_service@,
        }
    }
}

impl DedupEngine {
    pub closed spec fn settings(&self) -> DedupSettings {
        settings_of(self.params)
    }

    pub closed spec fn wf(&self) -> bool {
        &&& distinct_sigs(self@.open)
        &&& distinct_class_sigs(self@.classes)
        &&& self.summaries.wf()
        &&& self.last_service.wf()
    }

    /// A well-formed engine holds each signature once among its open
    /// windows and among its waiting labels, and each source once among its
    /// last services.
    pub proof fn lemma_wf_tables(&self)
        requires
            self.wf(),
        ensures
            distinct_sigs(self@.open),
            distinct_class_sigs(self@.classes),
            distinct_names(self@.last_service),
    {
        self.last_service.lemma_wf_names();
    }

    /// An engine with nothing open. The window doubled must fit in a
    /// duration of whole seconds.
    pub fn new(params: DedupParams) -> (e: Self)
        requires
            params.window_secs <= u64::MAX / 2,
        ensures
            e.wf(),
            e.settings() == settings_of(params),
            e@ == (DedupView {
                open: Seq::empty(),
                classes: Seq::empty(),
                summaries: Seq::empty(),
                last_service: Seq::empty(),
            }),
    {
        let e = DedupEngine {
            params,
            open: Vec::new(),
            classifications: Vec::new(),
            summaries: SummaryTable::new(),
            last_service: NameTable::new(),
        };
        assert(e@.open =~= Seq::<EntryView>::empty());
        assert(e@.classes =~= Seq::<(Seq<u8>, ClassView)>::empty());
        e
    }

    /// Number of open signatures.
    pub fn open_signatures(&self) -> (n: usize)
        ensures
            n == self@.open.len(),
    {
        self.open.len()
    }

    /// The summary drain period in seconds (at least one).
    pub fn summary_period_secs(&self) -> (s: u64)
        ensures
            s == (if self.settings().summary_flush_secs == 0 {
                1
            } else {
                self.settings().summary_flush_secs
            }),
    {
        if self.params.summary_flush_secs == 0 {
            1
        } else {
            self.params.summary_flush_secs
        }
    }

    fn find_open(&self, sig: &Signature) -> (r: Option<usize>)
        ensures
            (match r {
                Some(i) => i == sig_index(self@.open, sig.0@) && i < self@.open.len(),
                None => sig_index(self@.open, sig.0@) == -1,
            }),
    {
        let ghost v = self@.open;
        let mut k = self.open.len();
        assert(v.take(k as int) =~= v);
        while k > 0
            invariant
                k <= v.len(),
                v == self@.open,
                sig_index(v, sig.0@) == sig_index(v.take(k as int), sig.0@),
            decreases k,
        {
            let ghost t = v.take(k as int);
            assert(t.drop_last() =~= v.take(k - 1));
            assert(t.last() == entry_view(self.open@[k - 1]));
            if self.open[k - 1].sig.same(sig) {
                return Some(k - 1);
            }
            k -= 1;
        }
        None
    }

    fn find_class(&self, sig: &Signature) -> (r: Option<usize>)
        ensures
            (match r {
                Some(i) => i == class_index(self@.classes, sig.0@) && i < self@.classes.len(),
                None => class_index(self@.classes, sig.0@) == -1,
            }),
    {
        let ghost v = self@.classes;
        let mut k = self.classifications.len();
        assert(v.take(k as int) =~= v);
        while k > 0
            invariant
                k <= v.len(),
                v == self@.classes,
                class_index(v, sig.0@) == class_index(v.take(k as int), sig.0@),
            decreases k,
        {
            let ghost t = v.take(k as int);
            assert(t.drop_last() =~= v.take(k - 1));
            assert(t.last() == class_pair_view(self.classifications@[k - 1]));
            if self.classifications[k - 1].0.same(sig) {
                return Some(k - 1);
            }
            k -= 1;
        }
        None
    }

    fn oldest(&self) -> (k: usize)
        requires
            self@.open.len() > 0,
        ensures
            k == oldest_index(self@.open),
    {
        let ghost v = self@.open;
        let mut best: usize = 0;
        let mut i: usize = 1;
        while i < self.open.len()
            invariant
                1 <= i <= v.len(),
                v == self@.open,
                best == oldest_index(v.take(i as int)),
            decreases self.open.len() - i,
        {
            let ghost t = v.take(i + 1);
            assert(t.drop_last() =~= v.take(i as int));
            assert(t.last() == entry_view(self.open@[i as int]));
            proof {
                lemma_oldest_index(v.take(i as int));
                assert(t[best as int] == v.take(i as int)[best as int]);
            }
            if self.open[i].first_seen_mono_ms < self.open[best].first_seen_mono_ms {
                best = i;
            }
            i += 1;
        }
        assert(v.take(v.len() as int) =~= v);
        best
    }

    /// Take the label of `sig` out of the table.
    fn take_classification(&mut self, sig: &Signature) -> (r: Option<Classification>)
        requires
            old(self).wf(),
        ensures
            final(self).wf(),
            (opt_class_view(r), final(self)@.classes) == take_class(old(self)@.classes, sig.0@),
            final(self)@.open == old(self)@.open,
            final(self)@.summaries == old(self)@.summaries,
            final(self)@.last_service == old(self)@.last_service,
            final(self).settings() == old(self).settings(),
    {
        proof {
            lemma_take_class_distinct(self@.classes, sig.0@);
        }
        match self.find_class(sig) {
            Some(i) => {
                let ghost cs = self@.classes;
                let (_, c) = self.classifications.remove(i);
                assert(self@.classes =~= cs.remove(i as int));
                Some(c)
            },
            None => None,
        }
    }

    /// Emit a closed entry with its label (see [`spec_emit`]).
    fn emit(&mut self, e: OpenEntry, cls: Option<Classification>, out: &mut Vec<ProcessedEvent>)
        requires
            old(self).wf(),
        ensures
            final(self).wf(),
            ({
                let r = spec_emit(
                    entry_view(e),
                    opt_class_view(cls),
                    old(self).settings().summarize_routine,
                    old(self)@.summaries,
                );
                &&& final(self)@.summaries == r.1
                &&& final(out)@.len() == old(out)@.len() + r.0.len()
                &&& final(out)@.take(old(out)@.len() as int) == old(out)@
                &&& emits(final(out)@.skip(old(out)@.len() as int), r.0)
            }),
            final(self)@.open == old(self)@.open,
            final(self)@.classes == old(self)@.classes,
            final(self)@.last_service == old(self)@.last_service,
            final(self).settings() == old(self).settings(),
    {
        let ghost before = out@;
        if e.count <= 1 {
            assert(out@.take(before.len() as int) =~= before);
            assert(out@.skip(before.len() as int) =~= Seq::<ProcessedEvent>::empty());
            return ;
        }
        let routine = match &cls {
            Some(c) => str_eq(c.label.as_str(), "routine"),
            None => false,
        };
        if self.params.summarize_routine && routine {
            let hex = e.sig.to_hex();
            self.summaries.observe(
                e.source.as_str(),
                hex.as_str(),
                e.count,
                e.sample.as_str(),
                e.first_seen_ms,
                e.last_seen_ms,
            );
            assert(out@.take(before.len() as int) =~= before);
            assert(out@.skip(before.len() as int) =~= Seq::<ProcessedEvent>::empty());
        } else {
            let window_ms = if e.last_seen_ms >= e.first_seen_ms {
                e.last_seen_ms - e.first_seen_ms
            } else {
                0
            };
            let ev = ProcessedEvent::Collapsed {
                signature: e.sig.to_hex(),
                count: e.count,
                window_ms,
                first_seen_ms: e.first_seen_ms,
                last_seen_ms: e.last_seen_ms,
                sample: e.sample,
                source: e.source,
                service: e.service,
                classification: cls,
            };
            out.push(ev);
            assert(out@.take(before.len() as int) =~= before);
            assert(out@.skip(before.len() as int) =~= seq![ev]);
        }
    }

    /// Close an entry: its label is taken out and it is emitted.
    fn close(&mut self, e: OpenEntry, out: &mut Vec<ProcessedEvent>, Ghost(c): Ghost<Closing>)
        requires
            old(self).wf(),
            c.classes == old(self)@.classes,
            c.summaries == old(self)@.summaries,
            emits(old(out)@, c.out),
        ensures
            final(self).wf(),
            ({
                let r = close_one(c, entry_view(e), old(self).settings().summarize_routine);
                &&& final(self)@.classes == r.classes
                &&& final(self)@.summaries == r.summaries
                &&& emits(final(out)@, r.out)
            }),
            final(self)@.open == old(self)@.open,
            final(self)@.last_service == old(self)@.last_service,
            final(self).settings() == old(self).settings(),
    {
        let ghost before = out@;
        let cls = self.take_classification(&e.sig);
        self.emit(e, cls, out);
        proof {
            let n = before.len() as int;
            assert(out@ =~= out@.take(n) + out@.skip(n));
            lemma_emits_concat(before, out@.skip(n), c.out, spec_emit(
                entry_view(e),
                opt_class_view(cls),
                self.settings().summarize_routine,
                c.summaries,
            ).0);
        }
    }

    /// A sidecar label arrived for `sig`; it waits for the signature's
    /// window to close.
    pub fn on_classification(&mut self, sig: Signature, cls: Classification)
        requires
            old(self).wf(),
        ensures
            final(self).wf(),
            final(self).settings() == old(self).settings(),
            final(self)@ == (DedupView {
                classes: put_class(old(self)@.classes, sig.0@, class_view(cls)),
                ..old(self)@
            }),
    {
        let ghost cs = self@.classes;
        proof {
            lemma_put_class_distinct(cs, sig.0@, class_view(cls));
        }
        match self.find_class(&sig) {
            Some(i) => {
                self.classifications.set(i, (sig, cls));
            },
            None => {
                self.classifications.push((sig, cls));
            },
        }
        assert(self@.classes =~= put_class(cs, sig.0@, class_view(cls)));
    }

    /// Drain the summaries into `out` (one `Summary` per source that saw
    /// anything).
    fn drain_summaries(&mut self, out: &mut Vec<ProcessedEvent>)
        requires
            old(self).wf(),
        ensures
            final(self).wf(),
            final(self)@ == (DedupView { summaries: drained(old(self)@.summaries), ..old(self)@ }),
            final(self).settings() == old(self).settings(),
            final(out)@.len() == old(out)@.len() + summary_emissions(old(self)@.summaries).len(),
            final(out)@.take(old(out)@.len() as int) == old(out)@,
            emits(final(out)@.skip(old(out)@.len() as int), summary_emissions(old(self)@.summaries)),
    {
        let ghost before = out@;
        let ghost sums = self@.summaries;
        let mut evs = self.summaries.drain_all();
        let ghost ne = nonempty_slots(sums);
        let ghost ev = evs@;
        out.append(&mut evs);
        proof {
            let tail = out@.skip(before.len() as int);
            let ms = summary_emissions(sums);
            assert(tail =~= ev);
            assert(out@.take(before.len() as int) =~= before);
            assert forall|k: int| 0 <= k < tail.len() implies emitted(#[trigger] tail[k], ms[k]) by {
                assert(tail[k] == ev[k]);
            }
            assert(self@.summaries =~= drained(sums));
        }
    }

    /// The periodic summary flush: with routine summarisation on, one
    /// `Summary` per source that saw anything since the last flush.
    pub fn on_summary_tick(&mut self) -> (out: Vec<ProcessedEvent>)
        requires
            old(self).wf(),
        ensures
            final(self).wf(),
            final(self).settings() == old(self).settings(),
            final(self)@ == spec_on_summary_tick(old(self)@, old(self).settings()).view,
            emits(out@, spec_on_summary_tick(old(self)@, old(self).settings()).out),
    {
        let mut out: Vec<ProcessedEvent> = Vec::new();
        if self.params.summarize_routine {
            self.drain_summaries(&mut out);
            assert(out@.skip(0) =~= out@);
        }
        out
    }

    /// Close the open entries that `expired_now` (or, with `all`, every
    /// entry) selects, in order of opening.
    fn close_selected(&mut self, now_mono_ms: u64, all: bool, out: &mut Vec<ProcessedEvent>)
        requires
            old(self).wf(),
            old(out)@.len() == 0,
        ensures
            final(self).wf(),
            final(self).settings() == old(self).settings(),
            ({
                let done = if all {
                    always()
                } else {
                    expired_at(now_mono_ms, window_secs_of(old(self).settings()))
                };
                let c = close_where(
                    old(self)@.open,
                    start_closing(old(self)@),
                    old(self).settings().summarize_routine,
                    done,
                );
                &&& final(self)@ == (DedupView {
                    open: c.kept,
                    classes: c.classes,
                    summaries: c.summaries,
                    ..old(self)@
                })
                &&& emits(final(out)@, c.out)
            }),
    {
        let ghost v0 = self@;
        let ghost summarize = self.settings().summarize_routine;
        let w: u64 = if self.params.window_secs == 0 {
            1
        } else {
            self.params.window_secs
        };
        let ghost done = if all {
            always()
        } else {
            expired_at(now_mono_ms, window_secs_of(self.settings()))
        };
        let n = self.open.len();
        let mut kept: Vec<OpenEntry> = Vec::new();
        let mut i: usize = 0;
        proof {
            lemma_close_where_kept(v0.open, start_closing(v0), summarize, done);
            assert(v0.open.take(0) =~= Seq::<EntryView>::empty());
            assert(out@ =~= Seq::<ProcessedEvent>::empty());
        }
        while i < n
            invariant
                0 <= i <= n,
                n == v0.open.len(),
                self.open@.map_values(|e: OpenEntry| entry_view(e)) == v0.open,
                self.wf(),
                self.settings().summarize_routine == summarize,
                self@.last_service == v0.last_service,
                self.settings() == old(self).settings(),
                v0 == old(self)@,
                w == window_secs_of(self.settings()),
                done == (if all {
                    always()
                } else {
                    expired_at(now_mono_ms, window_secs_of(self.settings()))
                }),
                ({
                    let c = close_where(v0.open.take(i as int), start_closing(v0), summarize, done);
                    &&& self@.classes == c.classes
                    &&& self@.summaries == c.summaries
                    &&& kept@.map_values(|e: OpenEntry| entry_view(e)) == c.kept
                    &&& emits(out@, c.out)
                }),
            decreases n - i,
        {
            let e = self.open[i].dup();
            let ghost ev = entry_view(e);
            let ghost c = close_where(v0.open.take(i as int), start_closing(v0), summarize, done);
            proof {
                let t = v0.open.take(i + 1);
                assert(t.drop_last() =~= v0.open.take(i as int));
                assert(t.last() == ev);
            }
            let stale = e.last_seen_mono_ms <= now_mono_ms && (now_mono_ms - e.last_seen_mono_ms)
                / 1000 >= w;
            let held = e.first_seen_mono_ms <= now_mono_ms && (now_mono_ms - e.first_seen_mono_ms)
                / 1000 / 2 >= w;
            proof {
                if !all {
                    assert(done(ev) == expired(ev, now_mono_ms, w));
                    if ev.first_seen_mono_ms <= now_mono_ms {
                        let d = ((now_mono_ms - ev.first_seen_mono_ms) / 1000) as int;
                        assert(d / 2 >= w <==> d >= 2 * w);
                    }
                    if stale == false && held == false {
                        assert(!expired(ev, now_mono_ms, w));
                    }
                }
            }
            if all || stale || held {
                self.close(e, out, Ghost(c));
            } else {
                kept.push(e);
                proof {
                    assert(kept@.map_values(|x: OpenEntry| entry_view(x)) =~= c.kept.push(ev));
                }
            }
            i += 1;
        }
        proof {
            assert(v0.open.take(n as int) =~= v0.open);
        }
        self.open = kept;
        proof {
            let c = close_where(v0.open, start_closing(v0), summarize, done);
            assert(self@.open == c.kept);
            assert(self@ =~= (DedupView {
                open: c.kept,
                classes: c.classes,
                summaries: c.summaries,
                ..v0
            }));
        }
    }

    /// A clock tick: expired entries are closed (see [`spec_on_tick`]).
    pub fn on_tick(&mut self, now_mono_ms: u64) -> (out: Vec<ProcessedEvent>)
        requires
            old(self).wf(),
        ensures
            final(self).wf(),
            final(self).settings() == old(self).settings(),
            final(self)@ == spec_on_tick(old(self)@, old(self).settings(), now_mono_ms).view,
            emits(out@, spec_on_tick(old(self)@, old(self).settings(), now_mono_ms).out),
    {
        let mut out: Vec<ProcessedEvent> = Vec::new();
        self.close_selected(now_mono_ms, false, &mut out);
        out
    }

    /// Shutdown: everything open is closed and the summaries flushed (see
    /// [`spec_flush_all`]).
    pub fn flush_all(&mut self) -> (out: Vec<ProcessedEvent>)
        requires
            old(self).wf(),
        ensures
            final(self).wf(),
            final(self).settings() == old(self).settings(),
            final(self)@ == spec_flush_all(old(self)@, old(self).settings()).view,
            emits(out@, spec_flush_all(old(self)@, old(self).settings()).out),
    {
        let ghost v0 = self@;
        let mut out: Vec<ProcessedEvent> = Vec::new();
        self.close_selected(0, true, &mut out);
        let ghost c = close_where(v0.open, start_closing(v0), self.settings().summarize_routine, always());
        self.classifications = Vec::new();
        proof {
            assert(self@.classes =~= Seq::<(Seq<u8>, ClassView)>::empty());
            lemma_close_where_empty_kept(v0.open, start_closing(v0), self.settings().summarize_routine);
        }
        if self.params.summarize_routine {
            let ghost mid = out@;
            self.drain_summaries(&mut out);
            proof {
                let n = mid.len() as int;
                assert(out@ =~= out@.take(n) + out@.skip(n));
                lemma_emits_concat(mid, out@.skip(n), c.out, summary_emissions(c.summaries));
            }
        }
        proof {
            assert(self@.open =~= Seq::<EntryView>::empty());
        }
        out
    }

    /// One ingested line (see [`spec_on_line`]). `override_active` is the
    /// override switch at the time of the line.
    pub fn on_line(&mut self, line: IngestLine, now_mono_ms: u64, override_active: bool) -> (out:
        LineOutput)
        requires
            old(self).wf(),
        ensures
            final(self).wf(),
            final(self).settings() == old(self).settings(),
            ({
                let r = spec_on_line(
                    old(self)@,
                    old(self).settings(),
                    line.source@,
                    line.text@,
                    line.ts_ms,
                    now_mono_ms,
                    override_active,
                );
                &&& final(self)@ == r.view
                &&& emits(out.events@, r.out)
                &&& (match out.classify {
                    Some(p) => r.classify && p.0.0@ == spec_compute(line.text@) && p.1@ == line.text@,
                    None => !r.classify,
                })
            }),
    {
        let ghost v0 = self@;
        let service = {
            let hint = self.params.source_to_service.get(line.source.as_str());
            let last = self.last_service.get(line.source.as_str());
            proof {
                assert(opt_view(hint) == spec_get(self.settings().source_to_service, line.source@));
                assert(opt_view(last) == spec_get(v0.last_service, line.source@));
            }
            extract_full(line.text.as_str(), line.source.as_str(), hint, last)
        };
        assert(service@ == line_service(v0, self.settings(), line.source@, line.text@));
        self.last_service.set(line.source.clone(), service.clone());
        let ghost v1 = self@;
        assert(v1 == DedupView { last_service: spec_set(v0.last_service, line.source@, service@), ..v0 });
        let mut events: Vec<ProcessedEvent> = Vec::new();
        if override_active {
            let ev = ProcessedEvent::Raw {
                line: line.text,
                ts_ms: line.ts_ms,
                source: line.source,
                service,
            };
            events.push(ev);
            return LineOutput { events, classify: None };
        }
        let sig = compute(line.text.as_str());
        proof {
            lemma_sig_index(v1.open, sig.0@);
        }
        match self.find_open(&sig) {
            Some(i) => {
                let mut e = self.open[i].dup();
                e.last_seen_mono_ms = now_mono_ms;
                e.last_seen_ms = line.ts_ms;
                e.count = e.count.saturating_add(1);
                self.open.set(i, e);
                proof {
                    let r = spec_on_line(
                        v0,
                        self.settings(),
                        line.source@,
                        line.text@,
                        line.ts_ms,
                        now_mono_ms,
                        false,
                    );
                    assert(self@.open =~= r.view.open);
                    assert forall|a: int, b: int| 0 <= a < b < self@.open.len() implies #[trigger] self@.open[a].sig
                        != #[trigger] self@.open[b].sig by {
                        assert(self@.open[a].sig == v1.open[a].sig);
                        assert(self@.open[b].sig == v1.open[b].sig);
                    }
                    assert(events@ =~= Seq::<ProcessedEvent>::empty());
                }
                LineOutput { events, classify: None }
            },
            None => {
                let ghost c0 = start_closing(v1);
                assert(events@ =~= Seq::<ProcessedEvent>::empty());
                assert(c0.out =~= Seq::<Emission>::empty());
                if self.open.len() >= self.params.max_open_signatures && self.open.len() > 0 {
                    let k = self.oldest();
                    proof {
                        lemma_oldest_index(v1.open);
                    }
                    let e = self.open.remove(k);
                    assert(entry_view(e) == v1.open[k as int]);
                    proof {
                        assert(self@.open =~= v1.open.remove(k as int));
                        assert forall|a: int, b: int| 0 <= a < b < self@.open.len() implies #[trigger] self@.open[a].sig
                            != #[trigger] self@.open[b].sig by {
                            let a2 = if a < k { a } else { a + 1 };
                            let b2 = if b < k { b } else { b + 1 };
                            assert(self@.open[a] == v1.open[a2] && self@.open[b] == v1.open[b2]);
                        }
                    }
                    self.close(e, &mut events, Ghost(c0));
                }
                let ghost v2 = self@;
                let ghost open1 = v2.open;
                proof {
                    assert forall|a: int| 0 <= a < open1.len() implies #[trigger] open1[a].sig != sig.0@ by {
                        if open1.len() < v1.open.len() {
                            let k = oldest_index(v1.open);
                            let a2 = if a < k { a } else { a + 1 };
                            assert(open1[a] == v1.open.remove(k)[a]);
                            assert(v1.open.remove(k)[a] == v1.open[a2]);
                        } else {
                            assert(open1[a] == v1.open[a]);
                        }
                    }
                }
                let entry = OpenEntry {
                    sig,
                    first_seen_mono_ms: now_mono_ms,
                    first_seen_ms: line.ts_ms,
                    last_seen_mono_ms: now_mono_ms,
                    last_seen_ms: line.ts_ms,
                    count: 1,
                    sample: line.text.clone(),
                    source: line.source.clone(),
                    service: service.clone(),
                };
                self.open.push(entry);
                proof {
                    assert(self@.open =~= open1.push(entry_view(entry)));
                    assert forall|a: int, b: int| 0 <= a < b < self@.open.len() implies #[trigger] self@.open[a].sig
                        != #[trigger] self@.open[b].sig by {
                        assert(self@.open[a] == open1[a]);
                        if b < open1.len() {
                            assert(self@.open[b] == open1[b]);
                        }
                    }
                }
                let classify = if self.params.sidecar_enabled && self.find_class(&sig).is_none() {
                    Some((sig, line.text.clone()))
                } else {
                    None
                };
                let ghost before = events@;
                let ev = ProcessedEvent::FirstOccurrence {
                    signature: sig.to_hex(),
                    line: line.text,
                    ts_ms: line.ts_ms,
                    source: line.source,
                    service,
                };
                events.push(ev);
                proof {
                    let r = spec_on_line(
                        v0,
                        self.settings(),
                        line.source@,
                        line.text@,
                        line.ts_ms,
                        now_mono_ms,
                        false,
                    );
                    assert(self@ =~= r.view);
                    let c = if v1.open.len() >= self.settings().max_open_signatures && v1.open.len() > 0 {
                        close_one(c0, v1.open[oldest_index(v1.open)], self.settings().summarize_routine)
                    } else {
                        c0
                    };
                    assert(emits(before, c.out));
                    let m = Emission::First {
                        sig: sig.0@,
                        line: line.text@,
                        ts_ms: line.ts_ms,
                        source: line.source@,
                        service: service@,
                    };
                    lemma_emits_concat(before, seq![ev], c.out, seq![m]);
                    assert(events@ =~= before + seq![ev]);
                    assert(r.out =~= c.out + seq![m]);
                }
                LineOutput { events, classify }
            },
        }
    }
}

} // verus!
