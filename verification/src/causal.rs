//! Causal chain detector.
//!
//! Watches `FirstOccurrence` events from the dedup stage. When at least
//! `min_services` distinct services fire a new anomalous signature within a
//! rolling window of `window_secs`, that is evidence of a multi-service
//! incident. The root cause is the service whose earliest first occurrence
//! in the window is oldest: who broke first.
//!
//! The emitted `CausalChain` lists the involved services in temporal order
//! (ties by service name); the first is the root cause and every other link
//! carries its offset from the root.
//!
//! * A single service spamming many signatures never fires a chain: the
//!   threshold counts distinct services.
//! * Services failing together (spread under 5 s) lower the confidence,
//!   because the order is ambiguous.
//! * After a chain fires, a chain rooted at the same service is suppressed
//!   for `cooldown_secs`.

use vstd::prelude::*;
use crate::event::{CausalLink, ProcessedEvent};
use crate::order::{
    lemma_ins_pos_scan, lemma_sort_contains, lemma_sort_distinct_keys, lemma_sort_len,
    lemma_sort_sorted, sort_by, sorted_by, total_order,
};
use crate::text::{ascii_uppercase, chars_eq, chars_lt, chars_of, is_white_space, str_eq};
use crate::text::{leading_white_space, seq_le, seq_lt, to_ascii_uppercase, trim_start, white_space};

verus! {

/// Tunable parameters for the causal engine.
#[derive(Clone, Copy, Debug, PartialEq, Eq, Structural)]
pub struct CausalParams {
    /// Rolling window in which first occurrences are grouped into one chain.
    pub window_secs: u64,
    /// Minimum number of distinct services before a chain is emitted.
    pub min_services: usize,
    /// After a chain fires, a chain with the same root is suppressed this long.
    pub cooldown_secs: u64,
    /// Per-service ring buffer size, to keep memory bounded.
    pub per_service_buffer: usize,
}

impl Default for CausalParams {
    fn default() -> (p: Self)
        ensures
            p == (CausalParams {
                window_secs: 60,
                min_services: 3,
                cooldown_secs: 300,
                per_service_buffer: 16,
            }),
    {
        CausalParams { window_secs: 60, min_services: 3, cooldown_secs: 300, per_service_buffer: 16 }
    }
}

/// A first occurrence remembered for a service.
pub struct RecentView {
    pub signature: Seq<char>,
    pub ts_ms: u64,
    pub sample: Seq<char>,
}

/// A link of a chain, by its views.
pub struct LinkView {
    pub service: Seq<char>,
    pub signature: Seq<char>,
    pub ts_ms: u64,
    pub ts_offset_ms: u64,
    pub sample: Seq<char>,
}

pub open spec fn link_view(l: CausalLink) -> LinkView {
    LinkView {
        service: l.service@,
        signature: l.signature@,
        ts_ms: l.ts_ms,
        ts_offset_ms: l.ts_offset_ms,
        sample: l.sample@,
    }
}

/// What the engine remembers.
pub struct CausalView {
    /// Per service, its recent first occurrences, newest first.
    pub by_service: Seq<(Seq<char>, Seq<RecentView>)>,
    /// Per root service, when (monotonic ms) a chain rooted there last fired.
    pub last_chain_at: Seq<(Seq<char>, u64)>,
}

struct Recent {
    signature: String,
    ts_ms: u64,
    sample: String,
}

struct ServiceBuf {
    service: String,
    recent: Vec<Recent>,
}

struct LastChain {
    service: String,
    at_mono_ms: u64,
}

/// State the engine carries between events.
///
/// The per-service buffers and the cooldown stamps are keyed by service
/// name, a `String`: they are vectors with one entry per name (the `wf`
/// invariant), because maps keyed by strings do not prove here. A buffer is
/// a vector used as a queue (oldest first, the oldest dropped when full),
/// so one representation serves the buffers and the keyed lists alike.
pub struct CausalEngine {
    params: CausalParams,
    by_service: Vec<ServiceBuf>,
    last_chain_at: Vec<LastChain>,
}

spec fn recent_view(r: Recent) -> RecentView {
    RecentView { signature: r.signature@, ts_ms: r.ts_ms, sample: r.sample@ }
}

spec fn buf_view(b: ServiceBuf) -> (Seq<char>, Seq<RecentView>) {
    (b.service@, b.recent@.map_values(|r: Recent| recent_view(r)))
}

spec fn last_view(l: LastChain) -> (Seq<char>, u64) {
    (l.service@, l.at_mono_ms)
}

impl View for CausalEngine {
    type V = CausalView;

    closed spec fn view(&self) -> CausalView {
        CausalView {
            by_service: self.by_service@.map_values(|b: ServiceBuf| buf_view(b)),
            last_chain_at: self.last_chain_at@.map_values(|l: LastChain| last_view(l)),
        }
    }
}

/// Index of the entry keyed `k` (the last one, should there be several).
pub open spec fn key_index<V>(s: Seq<(Seq<char>, V)>, k: Seq<char>) -> int
    decreases s.len(),
{
    if s.len() == 0 {
        -1
    } else if s.last().0 == k {
        s.len() - 1
    } else {
        key_index(s.drop_last(), k)
    }
}

pub open spec fn distinct_keys<V>(s: Seq<(Seq<char>, V)>) -> bool {
    forall|i: int, j: int| 0 <= i < j < s.len() ==> #[trigger] s[i].0 != #[trigger] s[j].0
}

pub proof fn lemma_key_index<V>(s: Seq<(Seq<char>, V)>, k: Seq<char>)
    ensures
        -1 <= key_index(s, k) < s.len(),
        key_index(s, k) >= 0 ==> s[key_index(s, k)].0 == k,
        key_index(s, k) == -1 ==> forall|i: int| 0 <= i < s.len() ==> #[trigger] s[i].0 != k,
    decreases s.len(),
{
    if s.len() > 0 {
        lemma_key_index(s.drop_last(), k);
        assert forall|i: int| 0 <= i < s.len() - 1 implies s[i] == #[trigger] s.drop_last()[i] by {}
        if key_index(s, k) == -1 {
            assert forall|i: int| 0 <= i < s.len() implies #[trigger] s[i].0 != k by {
                if i < s.len() - 1 {
                    assert(s[i] == s.drop_last()[i]);
                }
            }
        }
    }
}

/// A buffer after recording `r`: the oldest entry is dropped when the
/// buffer is at (non-zero) capacity, and `r` goes in front.
pub open spec fn push_recent(buf: Seq<RecentView>, r: RecentView, cap: nat) -> Seq<RecentView> {
    seq![r] + (if buf.len() == cap && buf.len() > 0 {
        buf.drop_last()
    } else {
        buf
    })
}

pub open spec fn spec_record(
    v: Seq<(Seq<char>, Seq<RecentView>)>,
    service: Seq<char>,
    r: RecentView,
    cap: nat,
) -> Seq<(Seq<char>, Seq<RecentView>)> {
    let i = key_index(v, service);
    if i >= 0 {
        v.update(i, (service, push_recent(v[i].1, r, cap)))
    } else {
        v.push((service, push_recent(Seq::empty(), r, cap)))
    }
}

/// The window in milliseconds.
pub open spec fn window_ms(p: CausalParams) -> int {
    p.window_secs * 1000
}

/// Inside the window when no more than `w` ms old (a future entry counts).
pub open spec fn in_window(r: RecentView, now_ms: u64, w: int) -> bool {
    now_ms - r.ts_ms <= w
}

/// The in-window entry with the smallest timestamp; among equals, the one
/// that comes first in the buffer.
pub open spec fn earliest_in(buf: Seq<RecentView>, now_ms: u64, w: int) -> Option<RecentView>
    decreases buf.len(),
{
    if buf.len() == 0 {
        None
    } else {
        let e = earliest_in(buf.drop_last(), now_ms, w);
        let r = buf.last();
        if !in_window(r, now_ms, w) {
            e
        } else {
            match e {
                None => Some(r),
                Some(x) => if r.ts_ms < x.ts_ms {
                    Some(r)
                } else {
                    e
                },
            }
        }
    }
}

/// Each service that has an in-window entry, with its earliest one.
pub open spec fn candidates(v: Seq<(Seq<char>, Seq<RecentView>)>, now_ms: u64, w: int) -> Seq<
    (Seq<char>, RecentView),
>
    decreases v.len(),
{
    if v.len() == 0 {
        Seq::empty()
    } else {
        let rest = candidates(v.drop_last(), now_ms, w);
        match earliest_in(v.last().1, now_ms, w) {
            Some(r) => rest.push((v.last().0, r)),
            None => rest,
        }
    }
}

/// Chain order: earlier first, ties by service name.
pub open spec fn cand_before(a: (Seq<char>, RecentView), b: (Seq<char>, RecentView)) -> bool {
    a.1.ts_ms < b.1.ts_ms || (a.1.ts_ms == b.1.ts_ms && seq_le(a.0, b.0))
}

pub open spec fn cand_le() -> spec_fn((Seq<char>, RecentView), (Seq<char>, RecentView)) -> bool {
    |a: (Seq<char>, RecentView), b: (Seq<char>, RecentView)| cand_before(a, b)
}

pub open spec fn chain_order(v: CausalView, p: CausalParams, now_ms: u64) -> Seq<
    (Seq<char>, RecentView),
> {
    sort_by(candidates(v.by_service, now_ms, window_ms(p)), cand_le())
}

/// A chain rooted at `root` fired less than `cooldown_secs` ago.
pub open spec fn in_cooldown(v: CausalView, p: CausalParams, root: Seq<char>, now_mono_ms: u64) -> bool {
    let i = key_index(v.last_chain_at, root);
    &&& i >= 0
    &&& (if now_mono_ms >= v.last_chain_at[i].1 {
        now_mono_ms - v.last_chain_at[i].1
    } else {
        0
    }) < p.cooldown_secs * 1000
}

/// Whether a detection at `now_ms` emits a chain.
pub open spec fn chain_fires(v: CausalView, p: CausalParams, now_ms: u64, now_mono_ms: u64) -> bool {
    let c = chain_order(v, p, now_ms);
    &&& p.window_secs > 0
    &&& c.len() >= p.min_services
    &&& c.len() > 0
    &&& !in_cooldown(v, p, c[0].0, now_mono_ms)
}

pub open spec fn to_link(c: (Seq<char>, RecentView), root_ts: u64) -> LinkView {
    LinkView {
        service: c.0,
        signature: c.1.signature,
        ts_ms: c.1.ts_ms,
        ts_offset_ms: if c.1.ts_ms >= root_ts {
            (c.1.ts_ms - root_ts) as u64
        } else {
            0
        },
        sample: c.1.sample,
    }
}

pub open spec fn max_ts(c: Seq<(Seq<char>, RecentView)>, start: u64) -> u64
    decreases c.len(),
{
    if c.len() == 0 {
        start
    } else {
        let m = max_ts(c.drop_last(), start);
        if c.last().1.ts_ms > m {
            c.last().1.ts_ms
        } else {
            m
        }
    }
}

/// Confidence in basis points: 50% for a lone link; otherwise 65%, rising
/// linearly to 100% as the spread between root and last link reaches 5 s.
pub open spec fn spec_confidence(n_links: nat, spread_ms: int) -> u32 {
    if n_links < 2 {
        5000
    } else {
        (6500 + (7 * (if spread_ms < 5000 {
            spread_ms
        } else {
            5000
        })) / 10) as u32
    }
}

/// The `CausalChain` a firing detection emits.
pub open spec fn chain_matches(
    e: ProcessedEvent,
    v: CausalView,
    p: CausalParams,
    now_ms: u64,
    chain_id: Seq<char>,
) -> bool {
    let c = chain_order(v, p, now_ms);
    let root = c[0];
    let last = max_ts(c, root.1.ts_ms);
    match e {
        ProcessedEvent::CausalChain {
            chain_id: id,
            root_cause_service,
            confidence_bp,
            chain,
            first_seen_ms,
            last_seen_ms,
            suppressed_lines,
        } => {
            &&& id@ == chain_id
            &&& root_cause_service@ == root.0
            &&& chain@.map_values(|l: CausalLink| link_view(l)) == c.map_values(
                |x: (Seq<char>, RecentView)| to_link(x, root.1.ts_ms),
            )
            &&& first_seen_ms == root.1.ts_ms
            &&& last_seen_ms == last
            &&& confidence_bp == spec_confidence(c.len(), last - root.1.ts_ms)
            &&& suppressed_lines == 0
        },
        _ => false,
    }
}

/// The cooldown ledger after a chain rooted at `root` fires.
pub open spec fn stamp(s: Seq<(Seq<char>, u64)>, root: Seq<char>, at: u64) -> Seq<(Seq<char>, u64)> {
    let i = key_index(s, root);
    if i >= 0 {
        s.update(i, (root, at))
    } else {
        s.push((root, at))
    }
}

/// A buffer after the sweep: trailing (oldest) out-of-window entries dropped.
pub open spec fn trim_old(buf: Seq<RecentView>, now_ms: u64, w: int) -> Seq<RecentView>
    decreases buf.len(),
{
    if buf.len() > 0 && !in_window(buf.last(), now_ms, w) {
        trim_old(buf.drop_last(), now_ms, w)
    } else {
        buf
    }
}

/// The table after the sweep: every buffer trimmed, empty ones dropped.
pub open spec fn spec_gc(v: Seq<(Seq<char>, Seq<RecentView>)>, now_ms: u64, w: int) -> Seq<
    (Seq<char>, Seq<RecentView>),
>
    decreases v.len(),
{
    if v.len() == 0 {
        Seq::empty()
    } else {
        let rest = spec_gc(v.drop_last(), now_ms, w);
        let t = trim_old(v.last().1, now_ms, w);
        if t.len() > 0 {
            rest.push((v.last().0, t))
        } else {
            rest
        }
    }
}


/// An anomalous first occurrence: the only event that can seed a chain.
pub open spec fn seeds_chain(ev: ProcessedEvent) -> bool {
    match ev {
        ProcessedEvent::FirstOccurrence { line, .. } => spec_is_anomalous(line@),
        _ => false,
    }
}

pub open spec fn event_ts(ev: ProcessedEvent) -> u64 {
    match ev {
        ProcessedEvent::FirstOccurrence { ts_ms, .. } => ts_ms,
        _ => 0,
    }
}

/// The engine's memory once a seeding event has been recorded.
pub open spec fn recorded(v: CausalView, p: CausalParams, ev: ProcessedEvent) -> CausalView {
    match ev {
        ProcessedEvent::FirstOccurrence { signature, line, ts_ms, service, .. } => CausalView {
            by_service: spec_record(
                v.by_service,
                service@,
                RecentView { signature: signature@, ts_ms, sample: line@ },
                p.per_service_buffer as nat,
            ),
            last_chain_at: v.last_chain_at,
        },
        _ => v,
    }
}

/// The first whitespace-separated word of a line.
pub open spec fn first_word(s: Seq<char>) -> Seq<char>
    decreases s.len(),
{
    if s.len() == 0 || is_white_space(s[0]) {
        Seq::empty()
    } else {
        seq![s[0]] + first_word(s.drop_first())
    }
}

/// A line signals trouble unless its first word is a routine level
/// (`INFO`, `DEBUG`, `TRACE`, `NOTICE`, in any ASCII case).
pub open spec fn spec_is_anomalous(line: Seq<char>) -> bool {
    let w = ascii_uppercase(first_word(trim_start(line)));
    !(w == "INFO"@ || w == "DEBUG"@ || w == "TRACE"@ || w == "NOTICE"@)
}

proof fn lemma_first_word_scan(s: Seq<char>, k: int)
    requires
        0 <= k <= s.len(),
        forall|j: int| 0 <= j < k ==> !is_white_space(#[trigger] s[j]),
        k == s.len() || is_white_space(s[k]),
    ensures
        first_word(s) == s.take(k),
    decreases k,
{
    if k == 0 {
        assert(s.take(0) =~= Seq::<char>::empty());
    } else {
        let t = s.drop_first();
        assert forall|j: int| 0 <= j < k - 1 implies !is_white_space(#[trigger] t[j]) by {
            assert(t[j] == s[j + 1]);
        }
        if k < s.len() {
            assert(t[k - 1] == s[k]);
        }
        lemma_first_word_scan(t, k - 1);
        assert(seq![s[0]] + t.take(k - 1) =~= s.take(k));
    }
}

/// True for lines that signal something abnormal; routine `INFO`, `DEBUG`,
/// `TRACE` and `NOTICE` lines never seed a chain.
pub fn is_anomalous(line: &str) -> (b: bool)
    ensures
        b == spec_is_anomalous(line@),
{
    let v = chars_of(line);
    let start = leading_white_space(v.as_slice());
    let mut k = start;
    while k < v.len() && !white_space(v[k])
        invariant
            start <= k <= v@.len(),
            forall|j: int| start <= j < k ==> !is_white_space(#[trigger] v@[j]),
        decreases v.len() - k,
    {
        k += 1;
    }
    proof {
        let t = v@.skip(start as int);
        assert forall|j: int| 0 <= j < k - start implies !is_white_space(#[trigger] t[j]) by {
            assert(t[j] == v@[j + start]);
        }
        if k < v@.len() {
            assert(t[k - start] == v@[k as int]);
        }
        lemma_first_word_scan(t, k - start);
    }
    let word = crate::text::copy_range(v.as_slice(), start, k);
    proof {
        assert(word@ =~= v@.skip(start as int).take(k - start));
    }
    let up = to_ascii_uppercase(word.as_slice());
    !(chars_eq(up.as_slice(), chars_of("INFO").as_slice()) || chars_eq(
        up.as_slice(),
        chars_of("DEBUG").as_slice(),
    ) || chars_eq(up.as_slice(), chars_of("TRACE").as_slice()) || chars_eq(
        up.as_slice(),
        chars_of("NOTICE").as_slice(),
    ))
}

fn confidence(n_links: usize, spread_ms: u64) -> (c: u32)
    ensures
        c == spec_confidence(n_links as nat, spread_ms as int),
{
    if n_links < 2 {
        5000
    } else {
        let s: u64 = if spread_ms < 5000 {
            spread_ms
        } else {
            5000
        };
        (6500 + (7 * s) / 10) as u32
    }
}

fn clone_recent(r: &Recent) -> (c: Recent)
    ensures
        recent_view(c) == recent_view(*r),
{
    Recent { signature: r.signature.clone(), ts_ms: r.ts_ms, sample: r.sample.clone() }
}

fn in_window_exec(ts_ms: u64, now_ms: u64, window_secs: u64) -> (b: bool)
    ensures
        b == (now_ms - ts_ms <= window_secs * 1000),
{
    if now_ms <= ts_ms {
        true
    } else {
        ((now_ms - ts_ms) as u128) <= (window_secs as u128) * 1000
    }
}

/// Exec form of a candidate.
struct Candidate {
    service: String,
    recent: Recent,
}

spec fn cand_view(c: Candidate) -> (Seq<char>, RecentView) {
    (c.service@, recent_view(c.recent))
}

fn cand_before_exec(a: &Candidate, b: &Candidate) -> (r: bool)
    ensures
        r == cand_before(cand_view(*a), cand_view(*b)),
{
    if a.recent.ts_ms < b.recent.ts_ms {
        true
    } else if a.recent.ts_ms == b.recent.ts_ms {
        let x = chars_of(a.service.as_str());
        let y = chars_of(b.service.as_str());
        chars_lt(x.as_slice(), y.as_slice()) || chars_eq(x.as_slice(), y.as_slice())
    } else {
        false
    }
}

impl CausalEngine {
    /// The parameters the engine runs with.
    pub closed spec fn params(&self) -> CausalParams {
        self.params
    }

    /// Service keys are distinct in both tables.
    pub closed spec fn wf(&self) -> bool {
        &&& distinct_keys(self@.by_service)
        &&& distinct_keys(self@.last_chain_at)
    }

    /// A well-formed engine holds each service once in its buffers and in
    /// its cooldown stamps.
    pub proof fn lemma_wf_keys(&self)
        requires
            self.wf(),
        ensures
            distinct_keys(self@.by_service),
            distinct_keys(self@.last_chain_at),
    {
    }

    pub fn new(params: CausalParams) -> (e: Self)
        ensures
            e.params() == params,
            e@.by_service.len() == 0,
            e@.last_chain_at.len() == 0,
            e.wf(),
    {
        CausalEngine { params, by_service: Vec::new(), last_chain_at: Vec::new() }
    }

    fn service_index(&self, service: &str) -> (i: Option<usize>)
        ensures
            (match i {
                Some(k) => k == key_index(self@.by_service, service@) && k < self@.by_service.len(),
                None => key_index(self@.by_service, service@) == -1,
            }),
    {
        let mut k = self.by_service.len();
        proof {
            assert(self@.by_service.take(k as int) =~= self@.by_service);
        }
        while k > 0
            invariant
                k <= self.by_service@.len(),
                key_index(self@.by_service, service@) == key_index(
                    self@.by_service.take(k as int),
                    service@,
                ),
            decreases k,
        {
            let ghost t = self@.by_service.take(k as int);
            assert(t.last() == buf_view(self.by_service@[k - 1]));
            assert(t.drop_last() =~= self@.by_service.take(k - 1));
            if str_eq(self.by_service[k - 1].service.as_str(), service) {
                return Some(k - 1);
            }
            k -= 1;
        }
        None
    }

    fn cooldown_index(&self, service: &str) -> (i: Option<usize>)
        ensures
            (match i {
                Some(k) => k == key_index(self@.last_chain_at, service@) && k
                    < self@.last_chain_at.len(),
                None => key_index(self@.last_chain_at, service@) == -1,
            }),
    {
        let mut k = self.last_chain_at.len();
        proof {
            assert(self@.last_chain_at.take(k as int) =~= self@.last_chain_at);
        }
        while k > 0
            invariant
                k <= self.last_chain_at@.len(),
                key_index(self@.last_chain_at, service@) == key_index(
                    self@.last_chain_at.take(k as int),
                    service@,
                ),
            decreases k,
        {
            let ghost t = self@.last_chain_at.take(k as int);
            assert(t.last() == last_view(self.last_chain_at@[k - 1]));
            assert(t.drop_last() =~= self@.last_chain_at.take(k - 1));
            if str_eq(self.last_chain_at[k - 1].service.as_str(), service) {
                return Some(k - 1);
            }
            k -= 1;
        }
        None
    }

    /// Remember a first occurrence of `signature` by `service`.
    pub fn record(&mut self, service: &str, signature: &str, ts_ms: u64, sample: &str)
        requires
            old(self).wf(),
        ensures
            final(self).wf(),
            final(self).params() == old(self).params(),
            final(self)@.last_chain_at == old(self)@.last_chain_at,
            final(self)@.by_service == spec_record(
                old(self)@.by_service,
                service@,
                RecentView { signature: signature@, ts_ms, sample: sample@ },
                old(self).params().per_service_buffer as nat,
            ),
    {
        let ghost old_v = self@.by_service;
        let ghost r = RecentView { signature: signature@, ts_ms, sample: sample@ };
        let cap = self.params.per_service_buffer;
        let item = Recent { signature: signature.to_owned(), ts_ms, sample: sample.to_owned() };
        let ghost iv = recent_view(item);
        assert(iv == r);
        proof {
            lemma_key_index(old_v, service@);
        }
        match self.service_index(service) {
            Some(i) => {
                let ghost old_slots = self.by_service@;
                let ghost old_buf = old_v[i as int].1;
                let mut buf = Vec::new();
                std::mem::swap(&mut buf, &mut self.by_service[i].recent);
                assert(buf@.map_values(|x: Recent| recent_view(x)) == old_buf);
                if buf.len() == cap {
                    buf.pop();
                }
                let ghost before = buf@;
                proof {
                    assert(before.map_values(|x: Recent| recent_view(x)) =~= (if old_buf.len() == cap
                        && old_buf.len() > 0 {
                        old_buf.drop_last()
                    } else {
                        old_buf
                    }));
                }
                buf.insert(0, item);
                proof {
                    assert(buf@ == before.insert(0, item));
                    assert(buf@.map_values(|x: Recent| recent_view(x)) =~= push_recent(
                        old_buf,
                        r,
                        cap as nat,
                    ));
                }
                self.by_service[i].recent = buf;
                proof {
                    assert(self@.by_service =~= spec_record(old_v, service@, r, cap as nat));
                    assert forall|a: int, b: int|
                        0 <= a < b < self@.by_service.len() implies #[trigger] self@.by_service[a].0
                        != #[trigger] self@.by_service[b].0 by {
                        assert(self@.by_service[a].0 == old_v[a].0);
                        assert(self@.by_service[b].0 == old_v[b].0);
                    }
                }
            },
            None => {
                let mut buf = Vec::new();
                buf.push(item);
                assert(recent_view(buf@[0]) == r);
                self.by_service.push(ServiceBuf { service: service.to_owned(), recent: buf });
                proof {
                    assert(buf@.map_values(|x: Recent| recent_view(x)) =~= push_recent(
                        Seq::empty(),
                        r,
                        cap as nat,
                    ));
                    assert(self@.by_service =~= spec_record(old_v, service@, r, cap as nat));
                    assert forall|a: int, b: int|
                        0 <= a < b < self@.by_service.len() implies #[trigger] self@.by_service[a].0
                        != #[trigger] self@.by_service[b].0 by {
                        assert(self@.by_service[a] == old_v[a]);
                        if b < old_v.len() {
                            assert(self@.by_service[b] == old_v[b]);
                        }
                    }
                }
            },
        }
    }

    fn earliest(buf: &Vec<Recent>, now_ms: u64, window_secs: u64) -> (e: Option<Recent>)
        ensures
            (match e {
                Some(r) => earliest_in(
                    buf@.map_values(|x: Recent| recent_view(x)),
                    now_ms,
                    window_secs * 1000,
                ) == Some(recent_view(r)),
                None => earliest_in(
                    buf@.map_values(|x: Recent| recent_view(x)),
                    now_ms,
                    window_secs * 1000,
                ) is None,
            }),
    {
        let ghost bv = buf@.map_values(|x: Recent| recent_view(x));
        let mut best: Option<Recent> = None;
        let mut i: usize = 0;
        while i < buf.len()
            invariant
                0 <= i <= buf@.len(),
                bv == buf@.map_values(|x: Recent| recent_view(x)),
                (match best {
                    Some(r) => earliest_in(bv.take(i as int), now_ms, window_secs * 1000) == Some(
                        recent_view(r),
                    ),
                    None => earliest_in(bv.take(i as int), now_ms, window_secs * 1000) is None,
                }),
            decreases buf.len() - i,
        {
            proof {
                let t = bv.take(i + 1);
                assert(t.drop_last() =~= bv.take(i as int));
                assert(t.last() == recent_view(buf@[i as int]));
            }
            let r = &buf[i];
            if in_window_exec(r.ts_ms, now_ms, window_secs) {
                let replace = match &best {
                    None => true,
                    Some(b) => r.ts_ms < b.ts_ms,
                };
                if replace {
                    best = Some(clone_recent(r));
                }
            }
            i += 1;
        }
        proof {
            assert(bv.take(buf@.len() as int) =~= bv);
        }
        best
    }

    /// The candidates, sorted into chain order.
    fn ordered_candidates(&self, now_ms: u64) -> (out: Vec<Candidate>)
        ensures
            out@.map_values(|c: Candidate| cand_view(c)) == chain_order(self@, self.params(), now_ms),
    {
        let ghost w = window_ms(self.params);
        let ghost cs = candidates(self@.by_service, now_ms, w);
        let mut out: Vec<Candidate> = Vec::new();
        let mut i: usize = 0;
        while i < self.by_service.len()
            invariant
                0 <= i <= self.by_service@.len(),
                w == window_ms(self.params),
                cs == candidates(self@.by_service, now_ms, w),
                out@.map_values(|c: Candidate| cand_view(c)) == sort_by(
                    candidates(self@.by_service.take(i as int), now_ms, w),
                    cand_le(),
                ),
            decreases self.by_service.len() - i,
        {
            let ghost t = self@.by_service.take(i + 1);
            proof {
                assert(t.drop_last() =~= self@.by_service.take(i as int));
                assert(t.last() == buf_view(self.by_service@[i as int]));
            }
            let e = Self::earliest(&self.by_service[i].recent, now_ms, self.params.window_secs);
            match e {
                Some(r) => {
                    let x = Candidate { service: self.by_service[i].service.clone(), recent: r };
                    let ghost xv = cand_view(x);
                    let ghost cur = out@.map_values(|c: Candidate| cand_view(c));
                    let mut j: usize = 0;
                    while j < out.len() && cand_before_exec(&out[j], &x)
                        invariant
                            0 <= j <= out@.len(),
                            cur == out@.map_values(|c: Candidate| cand_view(c)),
                            xv == cand_view(x),
                            forall|k: int| 0 <= k < j ==> (cand_le())(#[trigger] cur[k], xv),
                        decreases out.len() - j,
                    {
                        j += 1;
                    }
                    proof {
                        lemma_ins_pos_scan(cur, xv, cand_le(), j as int);
                    }
                    out.insert(j, x);
                    proof {
                        assert(out@.map_values(|c: Candidate| cand_view(c)) =~= cur.insert(
                            j as int,
                            xv,
                        ));
                        assert(candidates(t, now_ms, w) == candidates(
                            self@.by_service.take(i as int),
                            now_ms,
                            w,
                        ).push(xv));
                        let c2 = candidates(t, now_ms, w);
                        assert(c2.drop_last() =~= candidates(
                            self@.by_service.take(i as int),
                            now_ms,
                            w,
                        ));
                    }
                },
                None => {},
            }
            i += 1;
        }
        proof {
            assert(self@.by_service.take(self@.by_service.len() as int) =~= self@.by_service);
        }
        out
    }

    fn stamp_root(&mut self, root: &String, now_mono_ms: u64)
        requires
            old(self).wf(),
        ensures
            final(self).wf(),
            final(self).params() == old(self).params(),
            final(self)@.by_service == old(self)@.by_service,
            final(self)@.last_chain_at == stamp(old(self)@.last_chain_at, root@, now_mono_ms),
    {
        let ghost old_l = self@.last_chain_at;
        proof {
            lemma_key_index(old_l, root@);
        }
        match self.cooldown_index(root.as_str()) {
            Some(k) => {
                self.last_chain_at[k].at_mono_ms = now_mono_ms;
                proof {
                    assert(self@.last_chain_at =~= stamp(old_l, root@, now_mono_ms));
                    assert forall|a: int, b: int|
                        0 <= a < b < self@.last_chain_at.len() implies #[trigger] self@.last_chain_at[a].0
                        != #[trigger] self@.last_chain_at[b].0 by {
                        assert(self@.last_chain_at[a].0 == old_l[a].0);
                        assert(self@.last_chain_at[b].0 == old_l[b].0);
                    }
                }
            },
            None => {
                self.last_chain_at.push(LastChain { service: root.clone(), at_mono_ms: now_mono_ms });
                proof {
                    assert(self@.last_chain_at =~= stamp(old_l, root@, now_mono_ms));
                    assert forall|a: int, b: int|
                        0 <= a < b < self@.last_chain_at.len() implies #[trigger] self@.last_chain_at[a].0
                        != #[trigger] self@.last_chain_at[b].0 by {
                        assert(self@.last_chain_at[a] == old_l[a]);
                        if b < old_l.len() {
                            assert(self@.last_chain_at[b] == old_l[b]);
                        }
                    }
                }
            },
        }
    }

    /// Scan the windows of all services and emit a chain when enough
    /// distinct services fired, unless the root is in its cooldown.
    fn try_detect(&mut self, now_ms: u64, now_mono_ms: u64, chain_id: String) -> (r: Option<
        ProcessedEvent,
    >)
        requires
            old(self).wf(),
        ensures
            final(self).wf(),
            final(self).params() == old(self).params(),
            final(self)@.by_service == old(self)@.by_service,
            r is Some <==> chain_fires(old(self)@, old(self).params(), now_ms, now_mono_ms),
            r is Some ==> chain_matches(r->0, old(self)@, old(self).params(), now_ms, chain_id@),
            r is Some ==> final(self)@.last_chain_at == stamp(
                old(self)@.last_chain_at,
                chain_order(old(self)@, old(self).params(), now_ms)[0].0,
                now_mono_ms,
            ),
            r is None ==> final(self)@ == old(self)@,
    {
        if self.params.window_secs == 0 {
            return None;
        }
        let sorted = self.ordered_candidates(now_ms);
        let ghost c = chain_order(self@, self.params, now_ms);
        if sorted.len() < self.params.min_services || sorted.len() == 0 {
            return None;
        }
        let root_ts = sorted[0].recent.ts_ms;
        assert(c[0] == cand_view(sorted@[0]));
        match self.cooldown_index(sorted[0].service.as_str()) {
            Some(k) => {
                let prev = self.last_chain_at[k].at_mono_ms;
                let elapsed: u64 = if now_mono_ms >= prev {
                    now_mono_ms - prev
                } else {
                    0
                };
                if (elapsed as u128) < (self.params.cooldown_secs as u128) * 1000 {
                    return None;
                }
            },
            None => {},
        }
        let mut chain: Vec<CausalLink> = Vec::new();
        let mut last: u64 = root_ts;
        let mut i: usize = 0;
        while i < sorted.len()
            invariant
                0 <= i <= sorted@.len(),
                c == sorted@.map_values(|x: Candidate| cand_view(x)),
                root_ts == c[0].1.ts_ms,
                chain@.map_values(|l: CausalLink| link_view(l)) == c.take(i as int).map_values(
                    |x: (Seq<char>, RecentView)| to_link(x, root_ts),
                ),
                last == max_ts(c.take(i as int), root_ts),
                last >= root_ts,
            decreases sorted.len() - i,
        {
            let x = &sorted[i];
            let offset: u64 = if x.recent.ts_ms >= root_ts {
                x.recent.ts_ms - root_ts
            } else {
                0
            };
            let link = CausalLink {
                service: x.service.clone(),
                signature: x.recent.signature.clone(),
                ts_ms: x.recent.ts_ms,
                ts_offset_ms: offset,
                sample: x.recent.sample.clone(),
            };
            let ghost lv = link_view(link);
            let ghost pre = chain@;
            assert(lv == to_link(cand_view(sorted@[i as int]), root_ts));
            chain.push(link);
            if x.recent.ts_ms > last {
                last = x.recent.ts_ms;
            }
            i += 1;
            proof {
                let t = c.take(i as int);
                assert(t.drop_last() =~= c.take(i - 1));
                assert(t.last() == cand_view(sorted@[i - 1]));
                assert(chain@ == pre.push(link));
                let pm = c.take(i - 1).map_values(|x: (Seq<char>, RecentView)| to_link(x, root_ts));
                assert(pre.map_values(|l: CausalLink| link_view(l)) == pm);
                assert(pm.len() == i - 1);
                assert(pre.len() == pre.map_values(|l: CausalLink| link_view(l)).len());
                assert forall|k: int| 0 <= k < i implies link_view(#[trigger] chain@[k]) == to_link(
                    t[k],
                    root_ts,
                ) by {
                    if k < i - 1 {
                        assert(chain@[k] == pre[k]);
                        assert(link_view(pre[k]) == pm[k]);
                        assert(t[k] == c.take(i - 1)[k]);
                    }
                }
                assert(chain@.map_values(|l: CausalLink| link_view(l)) =~= t.map_values(
                    |x: (Seq<char>, RecentView)| to_link(x, root_ts),
                ));
            }
        }
        proof {
            assert(c.take(c.len() as int) =~= c);
        }
        let conf = confidence(chain.len(), last - root_ts);
        let root = sorted[0].service.clone();
        self.stamp_root(&root, now_mono_ms);
        Some(
            ProcessedEvent::CausalChain {
                chain_id,
                root_cause_service: root,
                confidence_bp: conf,
                chain,
                first_seen_ms: root_ts,
                last_seen_ms: last,
                suppressed_lines: 0,
            },
        )
    }


    /// Drop entries older than the window across all services, and the
    /// services left with nothing in their buffer.
    pub fn gc(&mut self, now_ms: u64)
        requires
            old(self).wf(),
        ensures
            final(self).wf(),
            final(self).params() == old(self).params(),
            final(self)@.last_chain_at == old(self)@.last_chain_at,
            final(self)@.by_service == spec_gc(
                old(self)@.by_service,
                now_ms,
                window_ms(old(self).params()),
            ),
    {
        let ghost v = self@.by_service;
        let ghost w = window_ms(self.params);
        let mut old_slots: Vec<ServiceBuf> = Vec::new();
        std::mem::swap(&mut old_slots, &mut self.by_service);
        assert(old_slots@.map_values(|b: ServiceBuf| buf_view(b)) == v);
        let mut kept: Vec<ServiceBuf> = Vec::new();
        let mut i: usize = 0;
        while i < old_slots.len()
            invariant
                0 <= i <= old_slots@.len(),
                v.len() == old_slots@.len(),
                w == window_ms(self.params),
                distinct_keys(v),
                forall|k: int| i <= k < old_slots@.len() ==> buf_view(#[trigger] old_slots@[k]) == v[k],
                kept@.map_values(|b: ServiceBuf| buf_view(b)) == spec_gc(v.take(i as int), now_ms, w),
                forall|a: int, b: int|
                    0 <= a < b < kept@.len() ==> #[trigger] kept@[a].service@
                        != #[trigger] kept@[b].service@,
                forall|a: int|
                    0 <= a < kept@.len() ==> exists|j: int|
                        0 <= j < i && #[trigger] kept@[a].service@ == v[j].0,
            decreases old_slots.len() - i,
        {
            let ghost slot = v[i as int];
            let ghost pre_kept = kept@;
            let mut buf: Vec<Recent> = Vec::new();
            std::mem::swap(&mut buf, &mut old_slots[i].recent);
            let ghost bv0 = buf@.map_values(|x: Recent| recent_view(x));
            assert(bv0 == slot.1);
            while buf.len() > 0 && !in_window_exec(buf[buf.len() - 1].ts_ms, now_ms, self.params.window_secs)
                invariant
                    trim_old(buf@.map_values(|x: Recent| recent_view(x)), now_ms, w) == trim_old(
                        bv0,
                        now_ms,
                        w,
                    ),
                    w == self.params.window_secs * 1000,
                decreases buf.len(),
            {
                let ghost before = buf@;
                buf.pop();
                proof {
                    let bm = before.map_values(|x: Recent| recent_view(x));
                    assert(buf@.map_values(|x: Recent| recent_view(x)) =~= bm.drop_last());
                    assert(bm.last() == recent_view(before.last()));
                }
            }
            proof {
                let bm = buf@.map_values(|x: Recent| recent_view(x));
                if bm.len() > 0 {
                    assert(bm.last() == recent_view(buf@.last()));
                }
                assert(trim_old(bm, now_ms, w) == bm);
                let t = v.take(i + 1);
                assert(t.drop_last() =~= v.take(i as int));
                assert(t.last() == slot);
            }
            if buf.len() > 0 {
                let svc = old_slots[i].service.clone();
                assert(svc@ == slot.0);
                kept.push(ServiceBuf { service: svc, recent: buf });
                proof {
                    assert(kept@.map_values(|b: ServiceBuf| buf_view(b)) =~= spec_gc(
                        v.take(i as int),
                        now_ms,
                        w,
                    ).push((slot.0, trim_old(slot.1, now_ms, w))));
                    assert forall|a: int| 0 <= a < kept@.len() - 1 implies #[trigger] kept@[a].service@
                        != slot.0 by {
                        assert(kept@[a] == pre_kept[a]);
                        let j = choose|j: int| 0 <= j < i && pre_kept[a].service@ == v[j].0;
                        assert(v[j].0 != v[i as int].0);
                    }
                    assert forall|a: int, b: int|
                        0 <= a < b < kept@.len() implies #[trigger] kept@[a].service@
                        != #[trigger] kept@[b].service@ by {
                        if b < kept@.len() - 1 {
                            assert(kept@[a] == pre_kept[a]);
                            assert(kept@[b] == pre_kept[b]);
                        }
                    }
                    assert forall|a: int| 0 <= a < kept@.len() implies exists|j: int|
                        0 <= j < i + 1 && #[trigger] kept@[a].service@ == v[j].0 by {
                        if a < kept@.len() - 1 {
                            assert(kept@[a] == pre_kept[a]);
                            let j = choose|j: int| 0 <= j < i && pre_kept[a].service@ == v[j].0;
                            assert(0 <= j < i + 1 && kept@[a].service@ == v[j].0);
                        } else {
                            assert(kept@[a].service@ == v[i as int].0);
                        }
                    }
                }
            }
            proof {
                assert forall|k: int| i + 1 <= k < old_slots@.len() implies buf_view(
                    #[trigger] old_slots@[k],
                ) == v[k] by {}
            }
            i += 1;
        }
        self.by_service = kept;
        proof {
            assert(v.take(v.len() as int) =~= v);
            assert forall|a: int, b: int|
                0 <= a < b < self@.by_service.len() implies #[trigger] self@.by_service[a].0
                != #[trigger] self@.by_service[b].0 by {
                assert(self@.by_service[a].0 == kept@[a].service@);
                assert(self@.by_service[b].0 == kept@[b].service@);
            }
        }
    }

    /// Feed one event through the detector: an anomalous `FirstOccurrence`
    /// is remembered and may fire a chain (dated at the event's time, minted
    /// with `chain_id`); every other event leaves the engine unchanged.
    pub fn on_event(&mut self, ev: &ProcessedEvent, now_mono_ms: u64, chain_id: String) -> (r:
        Option<ProcessedEvent>)
        requires
            old(self).wf(),
        ensures
            final(self).wf(),
            final(self).params() == old(self).params(),
            !seeds_chain(*ev) ==> r is None && final(self)@ == old(self)@,
            seeds_chain(*ev) ==> final(self)@.by_service == recorded(old(self)@, old(self).params(), *ev).by_service,
            seeds_chain(*ev) ==> (r is Some <==> chain_fires(
                recorded(old(self)@, old(self).params(), *ev),
                old(self).params(),
                event_ts(*ev),
                now_mono_ms,
            )),
            r is Some ==> chain_matches(
                r->0,
                recorded(old(self)@, old(self).params(), *ev),
                old(self).params(),
                event_ts(*ev),
                chain_id@,
            ),
            r is Some ==> final(self)@.last_chain_at == stamp(
                old(self)@.last_chain_at,
                chain_order(recorded(old(self)@, old(self).params(), *ev), old(self).params(), event_ts(*ev))[0].0,
                now_mono_ms,
            ),
            r is None ==> final(self)@.last_chain_at == old(self)@.last_chain_at,
    {
        match ev {
            ProcessedEvent::FirstOccurrence { signature, line, ts_ms, service, .. } => {
                if is_anomalous(line.as_str()) {
                    self.record(service.as_str(), signature.as_str(), *ts_ms, line.as_str());
                    self.try_detect(*ts_ms, now_mono_ms, chain_id)
                } else {
                    None
                }
            },
            _ => None,
        }
    }

    /// What the causal stage sends on for one event: the chain it fires, if
    /// any, immediately before the event that triggered it, then the event
    /// itself, unchanged. Only an anomalous first occurrence can fire one.
    pub fn forward(&mut self, ev: ProcessedEvent, now_mono_ms: u64, chain_id: String) -> (out: Vec<
        ProcessedEvent,
    >)
        requires
            old(self).wf(),
        ensures
            final(self).wf(),
            final(self).params() == old(self).params(),
            forwards(out@, ev),
            out@.len() == 2 ==> seeds_chain(ev) && out@[0] is CausalChain && chain_matches(
                out@[0],
                recorded(old(self)@, old(self).params(), ev),
                old(self).params(),
                event_ts(ev),
                chain_id@,
            ),
            seeds_chain(ev) ==> (out@.len() == 2 <==> chain_fires(
                recorded(old(self)@, old(self).params(), ev),
                old(self).params(),
                event_ts(ev),
                now_mono_ms,
            )),
            !seeds_chain(ev) ==> final(self)@ == old(self)@,
    {
        let fired = self.on_event(&ev, now_mono_ms, chain_id);
        let mut out: Vec<ProcessedEvent> = Vec::new();
        match fired {
            Some(chain) => {
                out.push(chain);
            },
            None => {},
        }
        out.push(ev);
        out
    }
}

// ---------------------------------------------------------------------------
// Laws
// ---------------------------------------------------------------------------

proof fn lemma_seq_lt_irrefl(a: Seq<char>)
    ensures
        !seq_lt(a, a),
    decreases a.len(),
{
    if a.len() > 0 {
        lemma_seq_lt_irrefl(a.drop_first());
    }
}

proof fn lemma_seq_lt_trans(a: Seq<char>, b: Seq<char>, c: Seq<char>)
    requires
        seq_lt(a, b),
        seq_lt(b, c),
    ensures
        seq_lt(a, c),
    decreases a.len(),
{
    if a.len() > 0 && b.len() > 0 && c.len() > 0 && a[0] == b[0] && b[0] == c[0] {
        lemma_seq_lt_trans(a.drop_first(), b.drop_first(), c.drop_first());
    }
}

proof fn lemma_seq_lt_total(a: Seq<char>, b: Seq<char>)
    ensures
        a == b || seq_lt(a, b) || seq_lt(b, a),
    decreases a.len(),
{
    if a.len() == 0 && b.len() == 0 {
        assert(a =~= b);
    } else if a.len() > 0 && b.len() > 0 && a[0] == b[0] {
        lemma_seq_lt_total(a.drop_first(), b.drop_first());
        if a.drop_first() == b.drop_first() {
            assert(a =~= seq![a[0]] + a.drop_first());
            assert(b =~= seq![b[0]] + b.drop_first());
        }
    } else if a.len() > 0 && b.len() > 0 {
        vstd::utf8::char_u32_cast(a[0], a[0] as u32);
        vstd::utf8::char_u32_cast(b[0], b[0] as u32);
    }
}

/// Chain order is a total order: by time, ties by service name.
pub proof fn lemma_cand_order_total()
    ensures
        total_order(cand_le()),
{
    assert forall|a: (Seq<char>, RecentView), b: (Seq<char>, RecentView)|
        #[trigger] (cand_le())(a, b) || #[trigger] (cand_le())(b, a) by {
        lemma_seq_lt_total(a.0, b.0);
    }
    assert forall|a: (Seq<char>, RecentView), b: (Seq<char>, RecentView), c: (Seq<char>, RecentView)|
        #[trigger] (cand_le())(a, b) && #[trigger] (cand_le())(b, c) implies (cand_le())(a, c) by {
        if a.1.ts_ms == b.1.ts_ms && b.1.ts_ms == c.1.ts_ms {
            if seq_lt(a.0, b.0) && seq_lt(b.0, c.0) {
                lemma_seq_lt_trans(a.0, b.0, c.0);
            }
        }
    }
}

/// The candidates come one per service of the table, in table order.
proof fn lemma_candidates_keys(v: Seq<(Seq<char>, Seq<RecentView>)>, now_ms: u64, w: int)
    ensures
        candidates(v, now_ms, w).len() <= v.len(),
        forall|k: int|
            0 <= k < candidates(v, now_ms, w).len() ==> v.map_values(
                |e: (Seq<char>, Seq<RecentView>)| e.0,
            ).contains(#[trigger] candidates(v, now_ms, w)[k].0),
        distinct_keys(v) ==> forall|i: int, j: int|
            0 <= i < j < candidates(v, now_ms, w).len() ==> #[trigger] candidates(v, now_ms, w)[i].0
                != #[trigger] candidates(v, now_ms, w)[j].0,
    decreases v.len(),
{
    if v.len() > 0 {
        let d = v.drop_last();
        lemma_candidates_keys(d, now_ms, w);
        let cd = candidates(d, now_ms, w);
        let c = candidates(v, now_ms, w);
        let keys = v.map_values(|e: (Seq<char>, Seq<RecentView>)| e.0);
        let dkeys = d.map_values(|e: (Seq<char>, Seq<RecentView>)| e.0);
        assert forall|k: int| 0 <= k < cd.len() implies keys.contains(#[trigger] cd[k].0) by {
            assert(dkeys.contains(cd[k].0));
            let m = choose|m: int| 0 <= m < dkeys.len() && dkeys[m] == cd[k].0;
            assert(keys[m] == dkeys[m]);
        }
        assert(keys[v.len() - 1] == v.last().0);
        if distinct_keys(v) {
            assert(distinct_keys(d)) by {
                assert forall|i: int, j: int| 0 <= i < j < d.len() implies #[trigger] d[i].0
                    != #[trigger] d[j].0 by {
                    assert(d[i] == v[i] && d[j] == v[j]);
                }
            }
            assert forall|k: int| 0 <= k < cd.len() implies #[trigger] cd[k].0 != v.last().0 by {
                assert(dkeys.contains(cd[k].0));
                let m = choose|m: int| 0 <= m < dkeys.len() && dkeys[m] == cd[k].0;
                assert(v[m].0 == d[m].0);
            }
        }
        if c.len() > cd.len() {
            assert forall|k: int| 0 <= k < c.len() implies keys.contains(#[trigger] c[k].0) by {
                if k < cd.len() {
                    assert(c[k] == cd[k]);
                }
            }
            if distinct_keys(v) {
                assert forall|i: int, j: int| 0 <= i < j < c.len() implies #[trigger] c[i].0
                    != #[trigger] c[j].0 by {
                    assert(c[i] == cd[i]);
                    if j < cd.len() {
                        assert(c[j] == cd[j]);
                    }
                }
            }
        }
    }
}

/// A single service, however noisy, never fires a chain once at least two
/// services are required: the threshold counts distinct services.
pub proof fn law_single_service_never_fires(
    v: CausalView,
    p: CausalParams,
    now_ms: u64,
    now_mono_ms: u64,
)
    requires
        v.by_service.len() <= 1,
        p.min_services >= 2,
    ensures
        !chain_fires(v, p, now_ms, now_mono_ms),
{
    lemma_candidates_keys(v.by_service, now_ms, window_ms(p));
    lemma_sort_len(candidates(v.by_service, now_ms, window_ms(p)), cand_le());
}

/// A chain that fires names at least `min_services` distinct services in
/// temporal order (ties by name); its root is the earliest.
pub proof fn law_fired_chain_shape(v: CausalView, p: CausalParams, now_ms: u64, now_mono_ms: u64)
    requires
        distinct_keys(v.by_service),
        chain_fires(v, p, now_ms, now_mono_ms),
    ensures
        chain_order(v, p, now_ms).len() >= p.min_services,
        forall|i: int, j: int|
            0 <= i < j < chain_order(v, p, now_ms).len() ==> #[trigger] chain_order(v, p, now_ms)[i].0
                != #[trigger] chain_order(v, p, now_ms)[j].0,
        forall|i: int, j: int|
            0 <= i < j < chain_order(v, p, now_ms).len() ==> cand_before(
                #[trigger] chain_order(v, p, now_ms)[i],
                #[trigger] chain_order(v, p, now_ms)[j],
            ),
        forall|i: int|
            0 <= i < chain_order(v, p, now_ms).len() ==> chain_order(v, p, now_ms)[0].1.ts_ms
                <= #[trigger] chain_order(v, p, now_ms)[i].1.ts_ms,
{
    let cands = candidates(v.by_service, now_ms, window_ms(p));
    let c = chain_order(v, p, now_ms);
    lemma_candidates_keys(v.by_service, now_ms, window_ms(p));
    lemma_cand_order_total();
    lemma_sort_sorted(cands, cand_le());
    lemma_sort_distinct_keys(cands, cand_le(), |x: (Seq<char>, RecentView)| x.0);
    assert forall|i: int| 0 <= i < c.len() implies c[0].1.ts_ms <= #[trigger] c[i].1.ts_ms by {
        if i > 0 {
            assert((cand_le())(c[0], c[i]));
        }
    }
    assert forall|i: int, j: int| 0 <= i < j < c.len() implies cand_before(#[trigger] c[i], #[trigger] c[j]) by {
        assert((cand_le())(c[i], c[j]));
    }
}

/// The confidence of a chain lies between 65% and 100% once it has two
/// links (its spread is never negative); a lone link scores 50%.
pub proof fn law_confidence_range(n_links: nat, spread_ms: int)
    requires
        spread_ms >= 0,
    ensures
        n_links < 2 ==> spec_confidence(n_links, spread_ms) == 5000,
        n_links >= 2 ==> 6500 <= spec_confidence(n_links, spread_ms) <= 10000,
        n_links >= 2 && spread_ms >= 5000 ==> spec_confidence(n_links, spread_ms) == 10000,
{
}

/// Near-simultaneous failures are less certain: with two or more links, a
/// chain whose first and last signals lie closer together never scores a
/// higher confidence.
pub proof fn law_confidence_grows_with_spread(n_links: nat, a_ms: int, b_ms: int)
    requires
        n_links >= 2,
        0 <= a_ms <= b_ms,
    ensures
        spec_confidence(n_links, a_ms) <= spec_confidence(n_links, b_ms),
{
    let ca = if a_ms < 5000 { a_ms } else { 5000 };
    let cb = if b_ms < 5000 { b_ms } else { 5000 };
    assert(7 * ca / 10 <= 7 * cb / 10) by (nonlinear_arith)
        requires
            0 <= ca <= cb,
    ;
}

proof fn lemma_key_index_stamp(s: Seq<(Seq<char>, u64)>, root: Seq<char>, at: u64)
    ensures
        key_index(stamp(s, root, at), root) >= 0,
        stamp(s, root, at)[key_index(stamp(s, root, at), root)].1 == at,
{
    lemma_key_index(s, root);
    let i = key_index(s, root);
    let t = stamp(s, root, at);
    lemma_key_index(t, root);
    let j = key_index(t, root);
    let pos = if i >= 0 {
        i
    } else {
        s.len() as int
    };
    assert(t[pos].0 == root);
    // the last index holding `root` is `pos`
    if j != pos {
        assert(t[j].0 == root);
        if j > pos {
            assert(j < s.len());
            assert(t[j] == s[j]);
            lemma_key_index_last(s, root, j);
        }
        lemma_key_index_last(t, root, pos);
    }
}

/// `key_index` finds the last entry with the key.
proof fn lemma_key_index_last<V>(s: Seq<(Seq<char>, V)>, k: Seq<char>, p: int)
    requires
        0 <= p < s.len(),
        s[p].0 == k,
    ensures
        key_index(s, k) >= p,
    decreases s.len(),
{
    if p < s.len() - 1 && s.last().0 != k {
        lemma_key_index_last(s.drop_last(), k, p);
    }
}

/// After a chain rooted at `root` fires at monotonic time `fired_at`, no
/// chain with the same root fires until `cooldown_secs` have passed.
pub proof fn law_cooldown_suppresses(
    v: CausalView,
    p: CausalParams,
    root: Seq<char>,
    fired_at: u64,
    now_ms: u64,
    now_mono_ms: u64,
)
    requires
        fired_at <= now_mono_ms < fired_at + p.cooldown_secs * 1000,
    ensures
        ({
            let after = CausalView { last_chain_at: stamp(v.last_chain_at, root, fired_at), ..v };
            &&& in_cooldown(after, p, root, now_mono_ms)
            &&& (chain_order(after, p, now_ms).len() > 0 && chain_order(after, p, now_ms)[0].0 == root
                ==> !chain_fires(after, p, now_ms, now_mono_ms))
        }),
{
    lemma_key_index_stamp(v.last_chain_at, root, fired_at);
}


/// The events of a run with the chains taken out.
pub open spec fn without_chains(s: Seq<ProcessedEvent>) -> Seq<ProcessedEvent> {
    s.filter(|e: ProcessedEvent| !(e is CausalChain))
}

/// What one `forward` step sends for `ev`: the event last, at most one
/// chain before it.
pub open spec fn forwards(out: Seq<ProcessedEvent>, ev: ProcessedEvent) -> bool {
    &&& 1 <= out.len() <= 2
    &&& out.last() == ev
    &&& out.len() == 2 ==> out[0] is CausalChain
}

/// Over a whole run of the causal stage, every event is forwarded
/// unchanged and in order: taking the chains out of everything it sent
/// gives back its input (which holds no chains, as the dedup stage sends
/// none).
pub proof fn law_stage_forwards_everything(inputs: Seq<ProcessedEvent>, outs: Seq<Seq<ProcessedEvent>>)
    requires
        outs.len() == inputs.len(),
        forall|i: int| 0 <= i < inputs.len() ==> forwards(#[trigger] outs[i], inputs[i]),
        forall|i: int| 0 <= i < inputs.len() ==> !(#[trigger] inputs[i] is CausalChain),
    ensures
        without_chains(outs.flatten()) == inputs,
    decreases inputs.len(),
{
    outs.lemma_flatten_and_flatten_alt_are_equivalent();
    if inputs.len() > 0 {
        let d = outs.drop_last();
        let di = inputs.drop_last();
        assert forall|i: int| 0 <= i < di.len() implies forwards(#[trigger] d[i], di[i]) by {
            assert(d[i] == outs[i] && di[i] == inputs[i]);
        }
        assert forall|i: int| 0 <= i < di.len() implies !(#[trigger] di[i] is CausalChain) by {
            assert(di[i] == inputs[i]);
        }
        law_stage_forwards_everything(di, d);
        d.lemma_flatten_and_flatten_alt_are_equivalent();
        let last = outs.last();
        let ev = inputs.last();
        assert(forwards(outs[outs.len() - 1], inputs[inputs.len() - 1]));
        assert(outs.flatten_alt() == d.flatten_alt() + last);
        Seq::filter_distributes_over_add(d.flatten_alt(), last, |e: ProcessedEvent| !(e is CausalChain));
        reveal_with_fuel(Seq::filter, 3);
        if last.len() == 2 {
            assert(last =~= seq![last[0], ev]);
            assert(last.drop_last() =~= seq![last[0]]);
            assert(last.drop_last().drop_last() =~= Seq::<ProcessedEvent>::empty());
        } else {
            assert(last =~= seq![ev]);
            assert(last.drop_last() =~= Seq::<ProcessedEvent>::empty());
        }
        assert(without_chains(last) =~= seq![ev]);
        assert(inputs =~= di.push(ev));
    } else {
        assert(outs.flatten() =~= Seq::<ProcessedEvent>::empty());
        reveal_with_fuel(Seq::filter, 1);
    }
}


/// The cooldown lasts exactly `cooldown_secs` on the monotonic clock. With
/// enough services in the window, a chain fires when its root never fired
/// before, or when at least `cooldown_secs` seconds have passed since that
/// root's last chain; it is held back while fewer have passed.
pub proof fn law_cooldown_expires(v: CausalView, p: CausalParams, now_ms: u64, now_mono_ms: u64)
    requires
        p.window_secs > 0,
        chain_order(v, p, now_ms).len() >= p.min_services,
        chain_order(v, p, now_ms).len() > 0,
    ensures
        ({
            let root = chain_order(v, p, now_ms)[0].0;
            let i = key_index(v.last_chain_at, root);
            &&& (i < 0 || now_mono_ms >= v.last_chain_at[i].1 + p.cooldown_secs * 1000) ==> chain_fires(
                v,
                p,
                now_ms,
                now_mono_ms,
            )
            &&& (i >= 0 && v.last_chain_at[i].1 <= now_mono_ms < v.last_chain_at[i].1 + p.cooldown_secs
                * 1000) ==> !chain_fires(v, p, now_ms, now_mono_ms)
        }),
{
}

} // verus!
