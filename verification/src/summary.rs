//! Per-source accumulator that turns many routine-classified collapses into
//! one `Summary` event per window.
//!
//! The dedup engine holds one accumulator per source. Instead of emitting a
//! `Collapsed` event classified `routine`, it calls `observe`; a periodic
//! drain produces one `Summary` per source that saw anything since the last
//! drain.

use vstd::prelude::*;
use crate::event::{ProcessedEvent, TopSig};
use crate::order::{first_n, lemma_ins_pos_scan, lemma_sort_len, sort_by};
use crate::text::{chars_eq, chars_lt, chars_of, seq_le, str_eq};
use crate::event::saturating_sum;

verus! {

/// How many signatures a summary lists.
pub const TOP_N: usize = 5;

/// One signature's tally inside an accumulator.
pub struct SignatureTally {
    pub signature: Seq<char>,
    pub count: u64,
    pub sample: Seq<char>,
}

/// What an accumulator holds.
pub struct AccumulatorView {
    pub first_seen_ms: u64,
    pub last_seen_ms: u64,
    pub suppressed_lines: u64,
    /// One tally per distinct signature, in order of first observation.
    pub tallies: Seq<SignatureTally>,
}

struct PerSignature {
    signature: String,
    count: u64,
    sample: String,
}

/// The tallies of one source since the last drain.
pub struct SourceAccumulator {
    first_seen_ms: u64,
    last_seen_ms: u64,
    suppressed_lines: u64,
    signatures: Vec<PerSignature>,
}

spec fn tally_view(p: PerSignature) -> SignatureTally {
    SignatureTally { signature: p.signature@, count: p.count, sample: p.sample@ }
}

pub open spec fn top_view(t: TopSig) -> SignatureTally {
    SignatureTally { signature: t.signature@, count: t.count, sample: t.sample@ }
}

impl View for SourceAccumulator {
    type V = AccumulatorView;

    closed spec fn view(&self) -> AccumulatorView {
        AccumulatorView {
            first_seen_ms: self.first_seen_ms,
            last_seen_ms: self.last_seen_ms,
            suppressed_lines: self.suppressed_lines,
            tallies: self.signatures@.map_values(|p: PerSignature| tally_view(p)),
        }
    }
}

/// No two tallies share a signature.
pub open spec fn distinct_signatures(t: Seq<SignatureTally>) -> bool {
    forall|i: int, j: int|
        0 <= i < j < t.len() ==> #[trigger] t[i].signature != #[trigger] t[j].signature
}

pub open spec fn empty_accumulator() -> AccumulatorView {
    AccumulatorView { first_seen_ms: 0, last_seen_ms: 0, suppressed_lines: 0, tallies: Seq::empty() }
}

/// Index of the tally for `sig`, if any.
pub open spec fn tally_index(t: Seq<SignatureTally>, sig: Seq<char>) -> int
    decreases t.len(),
{
    if t.len() == 0 {
        -1
    } else if t.last().signature == sig {
        t.len() - 1
    } else {
        tally_index(t.drop_last(), sig)
    }
}

/// The tallies after one observation: the count of an existing signature
/// grows (saturating), a new signature is appended with its sample.
pub open spec fn observe_tallies(
    t: Seq<SignatureTally>,
    sig: Seq<char>,
    count: u64,
    sample: Seq<char>,
) -> Seq<SignatureTally> {
    let i = tally_index(t, sig);
    if i >= 0 {
        t.update(i, SignatureTally { count: saturating_sum(t[i].count, count), ..t[i] })
    } else {
        t.push(SignatureTally { signature: sig, count, sample })
    }
}

pub open spec fn spec_observe(
    a: AccumulatorView,
    sig: Seq<char>,
    count: u64,
    sample: Seq<char>,
    first_seen_ms: u64,
    last_seen_ms: u64,
) -> AccumulatorView {
    AccumulatorView {
        first_seen_ms: if a.tallies.len() == 0 {
            first_seen_ms
        } else if first_seen_ms < a.first_seen_ms {
            first_seen_ms
        } else {
            a.first_seen_ms
        },
        last_seen_ms: if last_seen_ms > a.last_seen_ms {
            last_seen_ms
        } else {
            a.last_seen_ms
        },
        suppressed_lines: saturating_sum(a.suppressed_lines, count),
        tallies: observe_tallies(a.tallies, sig, count, sample),
    }
}

/// Summary order: higher count first, ties by signature ascending.
pub open spec fn tally_before(a: SignatureTally, b: SignatureTally) -> bool {
    a.count > b.count || (a.count == b.count && seq_le(a.signature, b.signature))
}

pub open spec fn tally_le() -> spec_fn(SignatureTally, SignatureTally) -> bool {
    |a: SignatureTally, b: SignatureTally| tally_before(a, b)
}

/// The listed tallies of a drained accumulator.
pub open spec fn top_tallies(t: Seq<SignatureTally>) -> Seq<SignatureTally> {
    first_n(sort_by(t, tally_le()), TOP_N as nat)
}

/// The `Summary` event a drain produces for `source` from `a`.
pub open spec fn summary_matches(e: ProcessedEvent, source: Seq<char>, a: AccumulatorView) -> bool {
    match e {
        ProcessedEvent::Summary {
            source: s,
            window_ms,
            first_seen_ms,
            last_seen_ms,
            suppressed_lines,
            unique_signatures,
            top_signatures,
        } => {
            &&& s@ == source
            &&& window_ms == (if a.last_seen_ms >= a.first_seen_ms {
                (a.last_seen_ms - a.first_seen_ms) as u64
            } else {
                0
            })
            &&& first_seen_ms == a.first_seen_ms
            &&& last_seen_ms == a.last_seen_ms
            &&& suppressed_lines == a.suppressed_lines
            &&& unique_signatures == a.tallies.len()
            &&& top_signatures@.map_values(|t: TopSig| top_view(t)) == top_tallies(a.tallies)
        },
        _ => false,
    }
}

impl SourceAccumulator {
    pub closed spec fn wf(&self) -> bool {
        &&& distinct_signatures(self@.tallies)
        &&& self@.tallies.len() == 0 ==> self@ == empty_accumulator()
    }

    pub fn new() -> (r: Self)
        ensures
            r@ == empty_accumulator(),
            r.wf(),
    {
        let r = SourceAccumulator {
            first_seen_ms: 0,
            last_seen_ms: 0,
            suppressed_lines: 0,
            signatures: Vec::new(),
        };
        proof {
            assert(r@.tallies =~= Seq::<SignatureTally>::empty());
        }
        r
    }

    pub fn is_empty(&self) -> (b: bool)
        ensures
            b == (self@.tallies.len() == 0),
    {
        self.signatures.len() == 0
    }

    fn find(&self, signature: &str) -> (i: Option<usize>)
        ensures
            (match i {
                Some(k) => k == tally_index(self@.tallies, signature@) && k < self@.tallies.len(),
                None => tally_index(self@.tallies, signature@) == -1,
            }),
    {
        let mut k = self.signatures.len();
        proof {
            assert(self@.tallies.take(k as int) =~= self@.tallies);
        }
        while k > 0
            invariant
                k <= self.signatures@.len(),
                tally_index(self@.tallies, signature@) == tally_index(
                    self@.tallies.take(k as int),
                    signature@,
                ),
            decreases k,
        {
            let ghost t = self@.tallies.take(k as int);
            assert(t.last() == tally_view(self.signatures@[k - 1]));
            assert(t.drop_last() =~= self@.tallies.take(k - 1));
            if str_eq(self.signatures[k - 1].signature.as_str(), signature) {
                proof {
                    lemma_tally_index_found(self@.tallies, signature@);
                }
                return Some(k - 1);
            }
            k -= 1;
        }
        None
    }

    /// Add `count` lines of `signature` seen between `first_seen_ms` and
    /// `last_seen_ms` to this source's tally.
    pub fn observe(
        &mut self,
        signature: &str,
        count: u64,
        sample: &str,
        first_seen_ms: u64,
        last_seen_ms: u64,
    )
        requires
            old(self).wf(),
        ensures
            final(self).wf(),
            final(self)@ == spec_observe(old(self)@, signature@, count, sample@, first_seen_ms, last_seen_ms),
    {
        let ghost old_t = self@.tallies;
        if self.signatures.len() == 0 {
            self.first_seen_ms = first_seen_ms;
        } else if first_seen_ms < self.first_seen_ms {
            self.first_seen_ms = first_seen_ms;
        }
        if last_seen_ms > self.last_seen_ms {
            self.last_seen_ms = last_seen_ms;
        }
        self.suppressed_lines = self.suppressed_lines.saturating_add(count);
        match self.find(signature) {
            Some(i) => {
                let c = self.signatures[i].count.saturating_add(count);
                self.signatures[i].count = c;
                proof {
                    lemma_tally_index_found(old_t, signature@);
                    assert(self@.tallies =~= observe_tallies(old_t, signature@, count, sample@));
                    assert forall|a: int, b: int| 0 <= a < b < self@.tallies.len() implies #[trigger] self@.tallies[a].signature != #[trigger] self@.tallies[b].signature by {
                        assert(self@.tallies[a].signature == old_t[a].signature);
                        assert(self@.tallies[b].signature == old_t[b].signature);
                    }
                }
            },
            None => {
                self.signatures.push(
                    PerSignature {
                        signature: signature.to_owned(),
                        count,
                        sample: sample.to_owned(),
                    },
                );
                proof {
                    lemma_tally_index_absent(old_t, signature@);
                    assert(self@.tallies =~= observe_tallies(old_t, signature@, count, sample@));
                    assert forall|a: int, b: int| 0 <= a < b < self@.tallies.len() implies #[trigger] self@.tallies[a].signature != #[trigger] self@.tallies[b].signature by {
                        if b == old_t.len() {
                            assert(self@.tallies[a].signature == old_t[a].signature);
                        } else {
                            assert(self@.tallies[a] == old_t[a]);
                            assert(self@.tallies[b] == old_t[b]);
                        }
                    }
                }
            },
        }
    }

    fn sorted_tallies(&self) -> (r: Vec<TopSig>)
        ensures
            r@.map_values(|t: TopSig| top_view(t)) == sort_by(self@.tallies, tally_le()),
    {
        let mut out: Vec<TopSig> = Vec::new();
        let mut i: usize = 0;
        while i < self.signatures.len()
            invariant
                0 <= i <= self.signatures@.len(),
                out@.map_values(|t: TopSig| top_view(t)) == sort_by(
                    self@.tallies.take(i as int),
                    tally_le(),
                ),
            decreases self.signatures.len() - i,
        {
            let p = &self.signatures[i];
            let x = TopSig { signature: p.signature.clone(), count: p.count, sample: p.sample.clone() };
            let ghost xs = top_view(x);
            let ghost cur = out@.map_values(|t: TopSig| top_view(t));
            let xc = chars_of(x.signature.as_str());
            let mut j: usize = 0;
            while j < out.len() && before_exec(&out[j], x.count, xc.as_slice())
                invariant
                    0 <= j <= out@.len(),
                    cur == out@.map_values(|t: TopSig| top_view(t)),
                    xc@ == xs.signature,
                    x.count == xs.count,
                    forall|k: int| 0 <= k < j ==> (tally_le())(#[trigger] cur[k], xs),
                decreases out.len() - j,
            {
                j += 1;
            }
            proof {
                if j < out@.len() {
                    assert(!(tally_le())(cur[j as int], xs));
                }
                lemma_ins_pos_scan(cur, xs, tally_le(), j as int);
            }
            out.insert(j, x);
            i += 1;
            proof {
                let t = self@.tallies.take(i as int);
                assert(t.drop_last() =~= self@.tallies.take(i - 1));
                assert(t.last() == xs);
                assert(out@.map_values(|t: TopSig| top_view(t)) =~= cur.insert(j as int, xs));
            }
        }
        proof {
            assert(self@.tallies.take(self@.tallies.len() as int) =~= self@.tallies);
        }
        out
    }

    /// Close this source's window: the `Summary` event for `source`, after
    /// which the accumulator is empty again.
    pub fn drain_into_event(&mut self, source: String) -> (e: ProcessedEvent)
        requires
            old(self).wf(),
        ensures
            summary_matches(e, source@, old(self)@),
            final(self)@ == empty_accumulator(),
            final(self).wf(),
    {
        let unique = self.signatures.len() as u64;
        let mut top = self.sorted_tallies();
        let ghost sorted = top@.map_values(|t: TopSig| top_view(t));
        proof {
            lemma_sort_len(self@.tallies, tally_le());
        }
        if top.len() > TOP_N {
            top.truncate(TOP_N);
            proof {
                assert(top@.map_values(|t: TopSig| top_view(t)) =~= sorted.take(TOP_N as int));
            }
        }
        let window = self.last_seen_ms.saturating_sub(self.first_seen_ms);
        let e = ProcessedEvent::Summary {
            source,
            window_ms: window,
            first_seen_ms: self.first_seen_ms,
            last_seen_ms: self.last_seen_ms,
            suppressed_lines: self.suppressed_lines,
            unique_signatures: unique,
            top_signatures: top,
        };
        *self = SourceAccumulator::new();
        e
    }
}


struct SourceSlot {
    source: String,
    acc: SourceAccumulator,
}

/// One accumulator per source, in order of the sources' first appearance.
///
/// Keyed by source name (a `String`), the table is a vector with one slot
/// per source, in order of first appearance, because maps keyed by strings
/// do not prove here; the per-signature tallies are kept the same way.
pub struct SummaryTable {
    by_source: Vec<SourceSlot>,
}

spec fn slot_view(s: SourceSlot) -> (Seq<char>, AccumulatorView) {
    (s.source@, s.acc@)
}

impl View for SummaryTable {
    type V = Seq<(Seq<char>, AccumulatorView)>;

    closed spec fn view(&self) -> Seq<(Seq<char>, AccumulatorView)> {
        self.by_source@.map_values(|s: SourceSlot| slot_view(s))
    }
}

/// Index of the slot for `source`, if any.
pub open spec fn source_index(v: Seq<(Seq<char>, AccumulatorView)>, source: Seq<char>) -> int
    decreases v.len(),
{
    if v.len() == 0 {
        -1
    } else if v.last().0 == source {
        v.len() - 1
    } else {
        source_index(v.drop_last(), source)
    }
}

/// The table after one observation for `source`.
pub open spec fn spec_table_observe(
    v: Seq<(Seq<char>, AccumulatorView)>,
    source: Seq<char>,
    sig: Seq<char>,
    count: u64,
    sample: Seq<char>,
    first_seen_ms: u64,
    last_seen_ms: u64,
) -> Seq<(Seq<char>, AccumulatorView)> {
    let i = source_index(v, source);
    if i >= 0 {
        v.update(i, (source, spec_observe(v[i].1, sig, count, sample, first_seen_ms, last_seen_ms)))
    } else {
        v.push(
            (source, spec_observe(empty_accumulator(), sig, count, sample, first_seen_ms, last_seen_ms)),
        )
    }
}

/// The slots that saw something since the last drain, in table order.
pub open spec fn nonempty_slots(v: Seq<(Seq<char>, AccumulatorView)>) -> Seq<
    (Seq<char>, AccumulatorView),
>
    decreases v.len(),
{
    if v.len() == 0 {
        Seq::empty()
    } else if v.last().1.tallies.len() > 0 {
        nonempty_slots(v.drop_last()).push(v.last())
    } else {
        nonempty_slots(v.drop_last())
    }
}

proof fn lemma_source_index(v: Seq<(Seq<char>, AccumulatorView)>, source: Seq<char>)
    ensures
        -1 <= source_index(v, source) < v.len(),
        source_index(v, source) >= 0 ==> v[source_index(v, source)].0 == source,
        source_index(v, source) == -1 ==> forall|i: int| 0 <= i < v.len() ==> #[trigger] v[i].0 != source,
    decreases v.len(),
{
    if v.len() > 0 {
        lemma_source_index(v.drop_last(), source);
        assert forall|i: int| 0 <= i < v.len() - 1 implies v[i] == #[trigger] v.drop_last()[i] by {}
        if source_index(v, source) == -1 {
            assert forall|i: int| 0 <= i < v.len() implies #[trigger] v[i].0 != source by {
                if i < v.len() - 1 {
                    assert(v[i] == v.drop_last()[i]);
                }
            }
        }
    }
}

impl SummaryTable {
    /// Sources are distinct and every accumulator is well formed.
    pub closed spec fn wf(&self) -> bool {
        &&& forall|i: int| 0 <= i < self.by_source@.len() ==> (#[trigger] self.by_source@[i]).acc.wf()
        &&& forall|i: int, j: int|
            0 <= i < j < self@.len() ==> #[trigger] self@[i].0 != #[trigger] self@[j].0
    }

    pub fn new() -> (t: Self)
        ensures
            t@ == Seq::<(Seq<char>, AccumulatorView)>::empty(),
            t.wf(),
    {
        let t = SummaryTable { by_source: Vec::new() };
        proof {
            assert(t@ =~= Seq::<(Seq<char>, AccumulatorView)>::empty());
        }
        t
    }

    fn find(&self, source: &str) -> (i: Option<usize>)
        ensures
            (match i {
                Some(k) => k == source_index(self@, source@) && k < self@.len(),
                None => source_index(self@, source@) == -1,
            }),
    {
        let mut k = self.by_source.len();
        proof {
            assert(self@.take(k as int) =~= self@);
        }
        while k > 0
            invariant
                k <= self.by_source@.len(),
                source_index(self@, source@) == source_index(self@.take(k as int), source@),
            decreases k,
        {
            let ghost t = self@.take(k as int);
            assert(t.last() == slot_view(self.by_source@[k - 1]));
            assert(t.drop_last() =~= self@.take(k - 1));
            if str_eq(self.by_source[k - 1].source.as_str(), source) {
                return Some(k - 1);
            }
            k -= 1;
        }
        None
    }

    /// Record `count` lines of `signature` for `source`.
    pub fn observe(
        &mut self,
        source: &str,
        signature: &str,
        count: u64,
        sample: &str,
        first_seen_ms: u64,
        last_seen_ms: u64,
    )
        requires
            old(self).wf(),
        ensures
            final(self).wf(),
            final(self)@ == spec_table_observe(
                old(self)@,
                source@,
                signature@,
                count,
                sample@,
                first_seen_ms,
                last_seen_ms,
            ),
    {
        let ghost old_v = self@;
        proof {
            lemma_source_index(old_v, source@);
        }
        match self.find(source) {
            Some(i) => {
                assert(self.by_source@[i as int].acc.wf());
                self.by_source[i].acc.observe(signature, count, sample, first_seen_ms, last_seen_ms);
                proof {
                    assert(self@ =~= spec_table_observe(
                        old_v,
                        source@,
                        signature@,
                        count,
                        sample@,
                        first_seen_ms,
                        last_seen_ms,
                    ));
                    assert forall|a: int| 0 <= a < self.by_source@.len() implies (
                    #[trigger] self.by_source@[a]).acc.wf() by {
                        if a != i {
                            assert(self.by_source@[a] == old(self).by_source@[a]);
                        }
                    }
                    assert forall|a: int, b: int| 0 <= a < b < self@.len() implies #[trigger] self@[a].0
                        != #[trigger] self@[b].0 by {
                        assert(self@[a].0 == old_v[a].0);
                        assert(self@[b].0 == old_v[b].0);
                    }
                }
            },
            None => {
                let mut acc = SourceAccumulator::new();
                acc.observe(signature, count, sample, first_seen_ms, last_seen_ms);
                self.by_source.push(SourceSlot { source: source.to_owned(), acc });
                proof {
                    assert(self@ =~= spec_table_observe(
                        old_v,
                        source@,
                        signature@,
                        count,
                        sample@,
                        first_seen_ms,
                        last_seen_ms,
                    ));
                    assert forall|a: int| 0 <= a < self.by_source@.len() implies (
                    #[trigger] self.by_source@[a]).acc.wf() by {
                        if a < old_v.len() {
                            assert(self.by_source@[a] == old(self).by_source@[a]);
                        }
                    }
                    assert forall|a: int, b: int| 0 <= a < b < self@.len() implies #[trigger] self@[a].0
                        != #[trigger] self@[b].0 by {
                        if b < old_v.len() {
                            assert(self@[a] == old_v[a]);
                            assert(self@[b] == old_v[b]);
                        } else {
                            assert(self@[a] == old_v[a]);
                        }
                    }
                }
            },
        }
    }

    /// Flush every non-empty accumulator: one `Summary` per source that had
    /// at least one observation since the last flush, in table order. The
    /// sources stay in the table with empty accumulators.
    pub fn drain_all(&mut self) -> (out: Vec<ProcessedEvent>)
        requires
            old(self).wf(),
        ensures
            final(self).wf(),
            out@.len() == nonempty_slots(old(self)@).len(),
            forall|i: int|
                0 <= i < out@.len() ==> summary_matches(
                    #[trigger] out@[i],
                    nonempty_slots(old(self)@)[i].0,
                    nonempty_slots(old(self)@)[i].1,
                ),
            final(self)@.len() == old(self)@.len(),
            forall|i: int|
                0 <= i < final(self)@.len() ==> (#[trigger] final(self)@[i]).0 == old(self)@[i].0
                    && final(self)@[i].1 == empty_accumulator(),
    {
        let ghost old_v = self@;
        let mut out: Vec<ProcessedEvent> = Vec::new();
        let mut i: usize = 0;
        while i < self.by_source.len()
            invariant
                0 <= i <= self.by_source@.len(),
                self.by_source@.len() == old_v.len(),
                self.wf(),
                out@.len() == nonempty_slots(old_v.take(i as int)).len(),
                forall|k: int|
                    0 <= k < out@.len() ==> summary_matches(
                        #[trigger] out@[k],
                        nonempty_slots(old_v.take(i as int))[k].0,
                        nonempty_slots(old_v.take(i as int))[k].1,
                    ),
                forall|k: int| 0 <= k < i ==> (#[trigger] self@[k]).0 == old_v[k].0 && self@[k].1
                    == empty_accumulator(),
                forall|k: int| i <= k < old_v.len() ==> #[trigger] self@[k] == old_v[k],
            decreases self.by_source.len() - i,
        {
            let ghost before = self@;
            let ghost before_slots = self.by_source@;
            let ghost pre_out = out@;
            let ghost slot = before[i as int];
            assert(slot == old_v[i as int]);
            proof {
                let t = old_v.take(i + 1);
                assert(t.drop_last() =~= old_v.take(i as int));
                assert(t.last() == slot);
            }
            if !self.by_source[i].acc.is_empty() {
                assert(self.by_source@[i as int].acc.wf());
                let src = self.by_source[i].source.clone();
                let e = self.by_source[i].acc.drain_into_event(src);
                out.push(e);
                proof {
                    assert forall|k: int|
                        0 <= k < out@.len() implies summary_matches(
                        #[trigger] out@[k],
                        nonempty_slots(old_v.take(i + 1))[k].0,
                        nonempty_slots(old_v.take(i + 1))[k].1,
                    ) by {
                        if k < pre_out.len() {
                            assert(out@[k] == pre_out[k]);
                        }
                    }
                }
            } else {
                proof {
                    assert(self.by_source@[i as int].acc.wf());
                }
            }
            proof {
                assert forall|a: int| 0 <= a < self.by_source@.len() && a != i implies #[trigger] self.by_source@[a]
                    == before_slots[a] by {}
                assert(self@[i as int].0 == before[i as int].0);
                assert(self@[i as int].1 == empty_accumulator());
                assert forall|a: int| 0 <= a < self.by_source@.len() implies (
                #[trigger] self.by_source@[a]).acc.wf() by {
                    if a != i {
                        assert(self.by_source@[a] == before_slots[a]);
                    }
                }
                assert forall|k: int| 0 <= k < i + 1 implies (#[trigger] self@[k]).0 == old_v[k].0 && self@[k].1
                    == empty_accumulator() by {
                    if k < i {
                        assert(self.by_source@[k] == before_slots[k]);
                        assert(self@[k] == before[k]);
                    }
                }
                assert forall|k: int| i + 1 <= k < old_v.len() implies #[trigger] self@[k] == old_v[k] by {
                    assert(self.by_source@[k] == before_slots[k]);
                    assert(self@[k] == before[k]);
                }
                assert forall|a: int, b: int| 0 <= a < b < self@.len() implies #[trigger] self@[a].0
                    != #[trigger] self@[b].0 by {
                    assert(self@[a].0 == before[a].0);
                    assert(self@[b].0 == before[b].0);
                }
            }
            i += 1;
        }
        proof {
            assert(old_v.take(old_v.len() as int) =~= old_v);
        }
        out
    }
}

impl Default for SourceAccumulator {
    fn default() -> (r: Self)
        ensures
            r@ == empty_accumulator(),
            r.wf(),
    {
        SourceAccumulator::new()
    }
}

impl Default for SummaryTable {
    fn default() -> (t: Self)
        ensures
            t@ == Seq::<(Seq<char>, AccumulatorView)>::empty(),
            t.wf(),
    {
        SummaryTable::new()
    }
}

fn before_exec(a: &TopSig, count: u64, sig: &[char]) -> (b: bool)
    ensures
        b == tally_before(top_view(*a), SignatureTally { signature: sig@, count, sample: Seq::empty() }),
{
    if a.count > count {
        true
    } else if a.count == count {
        let ac = chars_of(a.signature.as_str());
        chars_lt(ac.as_slice(), sig) || chars_eq(ac.as_slice(), sig)
    } else {
        false
    }
}

proof fn lemma_tally_index_found(t: Seq<SignatureTally>, sig: Seq<char>)
    ensures
        -1 <= tally_index(t, sig) < t.len(),
        tally_index(t, sig) >= 0 ==> t[tally_index(t, sig)].signature == sig,
    decreases t.len(),
{
    if t.len() > 0 && t.last().signature != sig {
        lemma_tally_index_found(t.drop_last(), sig);
    }
}

proof fn lemma_tally_index_absent(t: Seq<SignatureTally>, sig: Seq<char>)
    requires
        tally_index(t, sig) == -1,
    ensures
        forall|i: int| 0 <= i < t.len() ==> #[trigger] t[i].signature != sig,
    decreases t.len(),
{
    if t.len() > 0 {
        lemma_tally_index_absent(t.drop_last(), sig);
        assert forall|i: int| 0 <= i < t.len() implies #[trigger] t[i].signature != sig by {
            if i < t.len() - 1 {
                assert(t[i] == t.drop_last()[i]);
            }
        }
    }
}


/// Draining resets the table: once every accumulator is empty (as after
/// `drain_all`), the next drain yields no summary.
pub proof fn law_drain_leaves_nothing(v: Seq<(Seq<char>, AccumulatorView)>)
    requires
        forall|i: int| 0 <= i < v.len() ==> (#[trigger] v[i]).1 == empty_accumulator(),
    ensures
        nonempty_slots(v).len() == 0,
    decreases v.len(),
{
    if v.len() > 0 {
        let d = v.drop_last();
        assert forall|i: int| 0 <= i < d.len() implies (#[trigger] d[i]).1 == empty_accumulator() by {
            assert(d[i] == v[i]);
        }
        law_drain_leaves_nothing(d);
        assert(v.last() == v[v.len() - 1]);
    }
}

} // verus!
