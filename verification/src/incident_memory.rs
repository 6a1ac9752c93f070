//! Aegis's institutional memory.
//!
//! Every causal chain becomes a **fingerprint**: the involved signatures,
//! the ordered service chain and the root cause. When a new chain arrives,
//! [`Store::search_similar`] ranks the remembered fingerprints by similarity
//! and returns the best matches, each carrying the cause and fix an engineer
//! entered when resolving the past incident (if it was ever resolved).
//!
//! Similarity is a weighted blend, in basis points:
//!
//!   * 50% Jaccard index of the signature sets: same error patterns?
//!   * 30% Jaccard index of the service sets: same services involved?
//!   * 15% LCS ratio of the service chains: same temporal order?
//!   * 5% bonus when the root cause matches.
//!
//! The store here is the table itself; the daemon persists its rows.

use vstd::prelude::*;
use crate::causal::{link_view, LinkView};
use crate::event::{clone_links, clone_opt_string, clone_strings, CausalLink, IncidentMatch, ProcessedEvent};
use crate::order::{
    first_n, lemma_ins_pos_scan, lemma_sort_contains, lemma_sort_len, lemma_sort_sorted, sort_by,
    sorted_by, total_order,
};
use crate::similarity::{distinct, jaccard, lcs, names, order_lcs_ratio, spec_jaccard, spec_lcs_ratio};
use crate::text::str_eq;

verus! {

/// What an engineer fills in when an incident is resolved.
#[derive(Debug, PartialEq)]
pub struct ResolutionCard {
    /// One or two sentences on the actual root cause.
    pub cause: String,
    /// One or two sentences on the fix that worked.
    pub fix: String,
}

/// A remembered chain plus its optional resolution.
#[derive(Debug, PartialEq)]
pub struct Fingerprint {
    pub id: String,
    pub chain_id: String,
    /// When the chain started (ms).
    pub ts_ms: u64,
    pub root_cause_service: String,
    /// Services of the chain, in chain order.
    pub services: Vec<String>,
    /// Signatures of the chain, in chain order.
    pub signatures: Vec<String>,
    pub chain: Vec<CausalLink>,
    pub cause: Option<String>,
    pub fix: Option<String>,
    pub resolved_at_ms: Option<u64>,
    pub resolved_in_minutes: Option<i64>,
}

pub struct FingerprintView {
    pub id: Seq<char>,
    pub chain_id: Seq<char>,
    pub ts_ms: u64,
    pub root_cause_service: Seq<char>,
    pub services: Seq<Seq<char>>,
    pub signatures: Seq<Seq<char>>,
    pub chain: Seq<LinkView>,
    pub cause: Option<Seq<char>>,
    pub fix: Option<Seq<char>>,
    pub resolved_at_ms: Option<u64>,
    pub resolved_in_minutes: Option<i64>,
}

pub open spec fn opt_chars(o: Option<String>) -> Option<Seq<char>> {
    match o {
        Some(s) => Some(s@),
        None => None,
    }
}

pub open spec fn fp_view(f: Fingerprint) -> FingerprintView {
    FingerprintView {
        id: f.id@,
        chain_id: f.chain_id@,
        ts_ms: f.ts_ms,
        root_cause_service: f.root_cause_service@,
        services: names(f.services@),
        signatures: names(f.signatures@),
        chain: f.chain@.map_values(|l: CausalLink| link_view(l)),
        cause: opt_chars(f.cause),
        fix: opt_chars(f.fix),
        resolved_at_ms: f.resolved_at_ms,
        resolved_in_minutes: f.resolved_in_minutes,
    }
}

/// A match, by its views.
pub struct MatchView {
    pub incident_id: Seq<char>,
    pub similarity_bp: u32,
    pub past_ts_ms: u64,
    pub past_root_cause_service: Seq<char>,
    pub past_cause: Option<Seq<char>>,
    pub past_fix: Option<Seq<char>>,
    pub past_resolved_in_minutes: Option<i64>,
}

pub open spec fn match_view(m: IncidentMatch) -> MatchView {
    MatchView {
        incident_id: m.incident_id@,
        similarity_bp: m.similarity_bp,
        past_ts_ms: m.past_ts_ms,
        past_root_cause_service: m.past_root_cause_service@,
        past_cause: opt_chars(m.past_cause),
        past_fix: opt_chars(m.past_fix),
        past_resolved_in_minutes: m.past_resolved_in_minutes,
    }
}

/// A past incident as a match with similarity `s`.
pub open spec fn to_match(s: u32, f: FingerprintView) -> MatchView {
    MatchView {
        incident_id: f.id,
        similarity_bp: s,
        past_ts_ms: f.ts_ms,
        past_root_cause_service: f.root_cause_service,
        past_cause: f.cause,
        past_fix: f.fix,
        past_resolved_in_minutes: f.resolved_in_minutes,
    }
}

/// Resolved once both a cause and a fix are recorded.
pub open spec fn spec_is_resolved(f: FingerprintView) -> bool {
    f.cause is Some && f.fix is Some
}

/// The fingerprint remembered for a causal chain under `id`: dated at the
/// chain's start, open (no resolution).
pub open spec fn spec_fingerprint(e: ProcessedEvent, id: Seq<char>) -> FingerprintView {
    match e {
        ProcessedEvent::CausalChain { chain_id, root_cause_service, chain, first_seen_ms, .. } => {
            FingerprintView {
                id,
                chain_id: chain_id@,
                ts_ms: first_seen_ms,
                root_cause_service: root_cause_service@,
                services: chain@.map_values(|l: CausalLink| l.service@),
                signatures: chain@.map_values(|l: CausalLink| l.signature@),
                chain: chain@.map_values(|l: CausalLink| link_view(l)),
                cause: None,
                fix: None,
                resolved_at_ms: None,
                resolved_in_minutes: None,
            }
        },
        _ => arbitrary(),
    }
}

/// Whole minutes from the incident's start to its resolution, rounded half
/// up; `0` when resolved "before" it started.
pub open spec fn minutes_between(start_ms: u64, end_ms: u64) -> i64 {
    if end_ms <= start_ms {
        0
    } else {
        (((end_ms - start_ms) + 30000) / 60000) as i64
    }
}

/// The fingerprint once resolved at `now_ms` with `cause` and `fix`.
pub open spec fn spec_resolved(
    f: FingerprintView,
    cause: Seq<char>,
    fix: Seq<char>,
    now_ms: u64,
) -> FingerprintView {
    FingerprintView {
        cause: Some(cause),
        fix: Some(fix),
        resolved_at_ms: Some(now_ms),
        resolved_in_minutes: Some(minutes_between(f.ts_ms, now_ms)),
        ..f
    }
}

impl Fingerprint {
    /// The distinct services involved, each once (a set of names).
    pub fn services_set(&self) -> (r: Vec<String>)
        ensures
            names(r@).no_duplicates(),
            names(r@).to_set() == fp_view(*self).services.to_set(),
    {
        distinct(&self.services)
    }

    /// The distinct signatures involved, each once (a set of names).
    pub fn signatures_set(&self) -> (r: Vec<String>)
        ensures
            names(r@).no_duplicates(),
            names(r@).to_set() == fp_view(*self).signatures.to_set(),
    {
        distinct(&self.signatures)
    }

    /// Both a cause and a fix have been recorded.
    pub fn is_resolved(&self) -> (b: bool)
        ensures
            b == spec_is_resolved(fp_view(*self)),
    {
        self.cause.is_some() && self.fix.is_some()
    }

    /// The `IncidentMemory` event that reports this fingerprint.
    pub fn to_event(&self) -> (e: ProcessedEvent)
        ensures
            (match e {
                ProcessedEvent::IncidentMemory {
                    incident_id,
                    chain_id,
                    ts_ms,
                    root_cause_service,
                    services,
                    cause,
                    fix,
                    resolved_at_ms,
                    resolved_in_minutes,
                } => {
                    &&& incident_id@ == self.id@
                    &&& chain_id@ == self.chain_id@
                    &&& ts_ms == self.ts_ms
                    &&& root_cause_service@ == self.root_cause_service@
                    &&& names(services@) == names(self.services@)
                    &&& opt_chars(cause) == opt_chars(self.cause)
                    &&& opt_chars(fix) == opt_chars(self.fix)
                    &&& resolved_at_ms == self.resolved_at_ms
                    &&& resolved_in_minutes == self.resolved_in_minutes
                },
                _ => false,
            }),
    {
        ProcessedEvent::IncidentMemory {
            incident_id: self.id.clone(),
            chain_id: self.chain_id.clone(),
            ts_ms: self.ts_ms,
            root_cause_service: self.root_cause_service.clone(),
            services: clone_strings(&self.services),
            cause: clone_opt_string(&self.cause),
            fix: clone_opt_string(&self.fix),
            resolved_at_ms: self.resolved_at_ms,
            resolved_in_minutes: self.resolved_in_minutes,
        }
    }
}

impl Clone for Fingerprint {
    fn clone(&self) -> (r: Self)
        ensures
            fp_view(r) == fp_view(*self),
    {
        let r = Fingerprint {
            id: self.id.clone(),
            chain_id: self.chain_id.clone(),
            ts_ms: self.ts_ms,
            root_cause_service: self.root_cause_service.clone(),
            services: clone_strings(&self.services),
            signatures: clone_strings(&self.signatures),
            chain: clone_links(&self.chain),
            cause: clone_opt_string(&self.cause),
            fix: clone_opt_string(&self.fix),
            resolved_at_ms: self.resolved_at_ms,
            resolved_in_minutes: self.resolved_in_minutes,
        };
        r
    }
}

/// Why a chain could not be remembered.
#[derive(Clone, Copy, Debug, PartialEq, Eq, Structural)]
pub enum MemoryError {
    /// `record_chain` was handed an event that is not a `CausalChain`.
    NotACausalChain,
}

/// The incident-memory table.
pub struct Store {
    incidents: Vec<Fingerprint>,
}

impl View for Store {
    type V = Seq<FingerprintView>;

    closed spec fn view(&self) -> Seq<FingerprintView> {
        self.incidents@.map_values(|f: Fingerprint| fp_view(f))
    }
}

/// Index of the fingerprint with this id, if any.
pub open spec fn id_index(v: Seq<FingerprintView>, id: Seq<char>) -> int
    decreases v.len(),
{
    if v.len() == 0 {
        -1
    } else if v.last().id == id {
        v.len() - 1
    } else {
        id_index(v.drop_last(), id)
    }
}

pub open spec fn distinct_ids(v: Seq<FingerprintView>) -> bool {
    forall|i: int, j: int| 0 <= i < j < v.len() ==> #[trigger] v[i].id != #[trigger] v[j].id
}

/// Insert-or-replace by id.
pub open spec fn spec_insert(v: Seq<FingerprintView>, f: FingerprintView) -> Seq<FingerprintView> {
    let i = id_index(v, f.id);
    if i >= 0 {
        v.update(i, f)
    } else {
        v.push(f)
    }
}

/// The table that results from inserting `rows` in order.
pub open spec fn spec_from_rows(rows: Seq<FingerprintView>) -> Seq<FingerprintView>
    decreases rows.len(),
{
    if rows.len() == 0 {
        Seq::empty()
    } else {
        spec_insert(spec_from_rows(rows.drop_last()), rows.last())
    }
}

pub open spec fn spec_get(v: Seq<FingerprintView>, id: Seq<char>) -> Option<FingerprintView> {
    let i = id_index(v, id);
    if i >= 0 {
        Some(v[i])
    } else {
        None
    }
}

/// Most recent first (by start time; ties keep table order).
pub open spec fn ts_before(a: FingerprintView, b: FingerprintView) -> bool {
    a.ts_ms >= b.ts_ms
}

pub open spec fn ts_le() -> spec_fn(FingerprintView, FingerprintView) -> bool {
    |a: FingerprintView, b: FingerprintView| ts_before(a, b)
}

/// At most `limit` fingerprints, most recent first; a negative limit means
/// no limit (as SQLite's `LIMIT -1`).
pub open spec fn spec_recent(v: Seq<FingerprintView>, limit: int) -> Seq<FingerprintView> {
    let s = sort_by(v, ts_le());
    if limit < 0 {
        s
    } else {
        first_n(s, limit as nat)
    }
}

/// How many remembered incidents a search considers.
pub const SEARCH_WINDOW: i64 = 2048;

/// Similarity of a chain (its links' services and signatures, and its root)
/// to a remembered fingerprint, in basis points.
pub open spec fn spec_similarity(
    q_signatures: Seq<Seq<char>>,
    q_services: Seq<Seq<char>>,
    q_root: Seq<char>,
    f: FingerprintView,
) -> u32 {
    let total = (50 * spec_jaccard(q_signatures.to_set(), f.signatures.to_set()) + 30 * spec_jaccard(
        q_services.to_set(),
        f.services.to_set(),
    ) + 15 * spec_lcs_ratio(q_services, f.services)) / 100 + (if f.root_cause_service == q_root {
        500int
    } else {
        0
    });
    if total > 10000 {
        10000
    } else {
        total as u32
    }
}

/// Candidate matches, in the order considered: every fingerprint of
/// another chain whose similarity reaches `min_bp`.
pub open spec fn scored(
    stored: Seq<FingerprintView>,
    q_signatures: Seq<Seq<char>>,
    q_services: Seq<Seq<char>>,
    q_root: Seq<char>,
    q_chain_id: Seq<char>,
    min_bp: u32,
) -> Seq<MatchView>
    decreases stored.len(),
{
    if stored.len() == 0 {
        Seq::empty()
    } else {
        let rest = scored(stored.drop_last(), q_signatures, q_services, q_root, q_chain_id, min_bp);
        let f = stored.last();
        let s = spec_similarity(q_signatures, q_services, q_root, f);
        if f.chain_id != q_chain_id && s >= min_bp {
            rest.push(to_match(s, f))
        } else {
            rest
        }
    }
}

/// Higher similarity first; ties keep the order considered.
pub open spec fn sim_before(a: MatchView, b: MatchView) -> bool {
    a.similarity_bp >= b.similarity_bp
}

pub open spec fn sim_le() -> spec_fn(MatchView, MatchView) -> bool {
    |a: MatchView, b: MatchView| sim_before(a, b)
}

/// The best `top_n` matches of a chain among the 2048 most recent
/// fingerprints; nothing for an event that is not a chain.
pub open spec fn spec_search(
    v: Seq<FingerprintView>,
    e: ProcessedEvent,
    top_n: nat,
    min_bp: u32,
) -> Seq<MatchView> {
    match e {
        ProcessedEvent::CausalChain { chain_id, root_cause_service, chain, .. } => first_n(
            sort_by(
                scored(
                    spec_recent(v, SEARCH_WINDOW as int),
                    chain@.map_values(|l: CausalLink| l.signature@),
                    chain@.map_values(|l: CausalLink| l.service@),
                    root_cause_service@,
                    chain_id@,
                    min_bp,
                ),
                sim_le(),
            ),
            top_n,
        ),
        _ => Seq::empty(),
    }
}

proof fn lemma_id_index(v: Seq<FingerprintView>, id: Seq<char>)
    ensures
        -1 <= id_index(v, id) < v.len(),
        id_index(v, id) >= 0 ==> v[id_index(v, id)].id == id,
        id_index(v, id) == -1 ==> forall|i: int| 0 <= i < v.len() ==> #[trigger] v[i].id != id,
    decreases v.len(),
{
    if v.len() > 0 {
        lemma_id_index(v.drop_last(), id);
        assert forall|i: int| 0 <= i < v.len() - 1 implies v[i] == #[trigger] v.drop_last()[i] by {}
        if id_index(v, id) == -1 {
            assert forall|i: int| 0 <= i < v.len() implies #[trigger] v[i].id != id by {
                if i < v.len() - 1 {
                    assert(v[i] == v.drop_last()[i]);
                }
            }
        }
    }
}

fn link_services(links: &Vec<CausalLink>) -> (r: Vec<String>)
    ensures
        names(r@) == links@.map_values(|l: CausalLink| l.service@),
{
    let mut r: Vec<String> = Vec::new();
    let mut i: usize = 0;
    while i < links.len()
        invariant
            0 <= i <= links@.len(),
            names(r@) == links@.take(i as int).map_values(|l: CausalLink| l.service@),
        decreases links.len() - i,
    {
        let x = links[i].service.clone();
        let ghost before = r@;
        r.push(x);
        i += 1;
        proof {
            let t = links@.take(i as int).map_values(|l: CausalLink| l.service@);
            assert(names(before) == links@.take(i - 1).map_values(|l: CausalLink| l.service@));
            assert forall|k: int| 0 <= k < i implies #[trigger] names(r@)[k] == t[k] by {
                if k < i - 1 {
                    assert(r@[k] == before[k]);
                    assert(names(before)[k] == before[k]@);
                }
            }
            assert(names(r@) =~= t);
        }
    }
    assert(links@.take(links@.len() as int) =~= links@);
    r
}

fn link_signatures(links: &Vec<CausalLink>) -> (r: Vec<String>)
    ensures
        names(r@) == links@.map_values(|l: CausalLink| l.signature@),
{
    let mut r: Vec<String> = Vec::new();
    let mut i: usize = 0;
    while i < links.len()
        invariant
            0 <= i <= links@.len(),
            names(r@) == links@.take(i as int).map_values(|l: CausalLink| l.signature@),
        decreases links.len() - i,
    {
        let x = links[i].signature.clone();
        let ghost before = r@;
        r.push(x);
        i += 1;
        proof {
            let t = links@.take(i as int).map_values(|l: CausalLink| l.signature@);
            assert(names(before) == links@.take(i - 1).map_values(|l: CausalLink| l.signature@));
            assert forall|k: int| 0 <= k < i implies #[trigger] names(r@)[k] == t[k] by {
                if k < i - 1 {
                    assert(r@[k] == before[k]);
                    assert(names(before)[k] == before[k]@);
                }
            }
            assert(names(r@) =~= t);
        }
    }
    assert(links@.take(links@.len() as int) =~= links@);
    r
}

/// Similarity of a chain to a fingerprint, in basis points.
pub fn similarity(
    q_signatures: &Vec<String>,
    q_services: &Vec<String>,
    q_root: &String,
    fp: &Fingerprint,
) -> (s: u32)
    ensures
        s == spec_similarity(names(q_signatures@), names(q_services@), q_root@, fp_view(*fp)),
        s <= 10000,
{
    let js = jaccard(q_signatures, &fp.signatures);
    let jv = jaccard(q_services, &fp.services);
    let lr = order_lcs_ratio(q_services, &fp.services);
    let base: u64 = (50 * (js as u64) + 30 * (jv as u64) + 15 * (lr as u64)) / 100;
    let bonus: u64 = if str_eq(fp.root_cause_service.as_str(), q_root.as_str()) {
        500
    } else {
        0
    };
    let total = base + bonus;
    if total > 10000 {
        10000
    } else {
        total as u32
    }
}

fn minutes_between_exec(start_ms: u64, end_ms: u64) -> (m: i64)
    ensures
        m == minutes_between(start_ms, end_ms),
{
    if end_ms <= start_ms {
        0
    } else {
        let d = end_ms - start_ms;
        ((((d as u128) + 30000) / 60000) as u64) as i64
    }
}

impl Store {
    /// Fingerprint ids are distinct.
    pub closed spec fn wf(&self) -> bool {
        distinct_ids(self@)
    }

    /// A well-formed store holds each incident id once.
    pub proof fn lemma_wf_ids(&self)
        requires
            self.wf(),
        ensures
            distinct_ids(self@),
    {
    }

    /// An empty table.
    pub fn new() -> (s: Self)
        ensures
            s@ == Seq::<FingerprintView>::empty(),
            s.wf(),
    {
        let s = Store { incidents: Vec::new() };
        assert(s@ =~= Seq::<FingerprintView>::empty());
        s
    }

    fn index_of(&self, id: &str) -> (i: Option<usize>)
        ensures
            (match i {
                Some(k) => k == id_index(self@, id@) && k < self@.len(),
                None => id_index(self@, id@) == -1,
            }),
    {
        let mut k = self.incidents.len();
        proof {
            assert(self@.take(k as int) =~= self@);
        }
        while k > 0
            invariant
                k <= self.incidents@.len(),
                id_index(self@, id@) == id_index(self@.take(k as int), id@),
            decreases k,
        {
            let ghost t = self@.take(k as int);
            assert(t.last() == fp_view(self.incidents@[k - 1]));
            assert(t.drop_last() =~= self@.take(k - 1));
            if str_eq(self.incidents[k - 1].id.as_str(), id) {
                return Some(k - 1);
            }
            k -= 1;
        }
        None
    }

    /// Insert a fingerprint, replacing the one with the same id.
    pub fn insert(&mut self, fp: Fingerprint)
        requires
            old(self).wf(),
        ensures
            final(self).wf(),
            final(self)@ == spec_insert(old(self)@, fp_view(fp)),
    {
        let ghost v = self@;
        let ghost fv = fp_view(fp);
        proof {
            lemma_id_index(v, fv.id);
        }
        match self.index_of(fp.id.as_str()) {
            Some(i) => {
                self.incidents.set(i, fp);
                proof {
                    assert(self@ =~= spec_insert(v, fv));
                    assert forall|a: int, b: int| 0 <= a < b < self@.len() implies #[trigger] self@[a].id
                        != #[trigger] self@[b].id by {
                        if a != i && b != i {
                            assert(self@[a] == v[a] && self@[b] == v[b]);
                        } else if a == i {
                            assert(self@[b] == v[b]);
                        } else {
                            assert(self@[a] == v[a]);
                        }
                    }
                }
            },
            None => {
                self.incidents.push(fp);
                proof {
                    assert(self@ =~= spec_insert(v, fv));
                    assert forall|a: int, b: int| 0 <= a < b < self@.len() implies #[trigger] self@[a].id
                        != #[trigger] self@[b].id by {
                        assert(self@[a] == v[a]);
                        if b < v.len() {
                            assert(self@[b] == v[b]);
                        }
                    }
                }
            },
        }
    }

    /// A table holding `rows`, inserted in order (a later row replaces an
    /// earlier one with the same id).
    pub fn from_rows(rows: Vec<Fingerprint>) -> (s: Self)
        ensures
            s.wf(),
            s@ == spec_from_rows(rows@.map_values(|f: Fingerprint| fp_view(f))),
    {
        let ghost rv = rows@.map_values(|f: Fingerprint| fp_view(f));
        let mut s = Store::new();
        let mut i: usize = 0;
        while i < rows.len()
            invariant
                s.wf(),
                0 <= i <= rows@.len(),
                rv == rows@.map_values(|f: Fingerprint| fp_view(f)),
                s@ == spec_from_rows(rv.take(i as int)),
            decreases rows.len() - i,
        {
            let fp = rows[i].clone();
            proof {
                let t = rv.take(i + 1);
                assert(t.drop_last() =~= rv.take(i as int));
                assert(t.last() == rv[i as int]);
            }
            s.insert(fp);
            i += 1;
        }
        let n = rows.len();
        proof {
            assert(rv.take(n as int) =~= rv);
        }
        s
    }

    /// Remember a causal chain under `id`; the id is returned. Anything
    /// but a `CausalChain` is refused.
    pub fn record_chain(&mut self, event: &ProcessedEvent, id: String) -> (r: Result<
        String,
        MemoryError,
    >)
        requires
            old(self).wf(),
        ensures
            final(self).wf(),
            event is CausalChain ==> r is Ok && r->Ok_0@ == id@ && final(self)@ == spec_insert(
                old(self)@,
                spec_fingerprint(*event, id@),
            ),
            event is CausalChain ==> spec_get(final(self)@, id@) == Some(spec_fingerprint(*event, id@)),
            event is CausalChain ==> final(self)@.len() == old(self)@.len() + (if spec_get(
                old(self)@,
                id@,
            ) is Some {
                0int
            } else {
                1
            }),
            !(event is CausalChain) ==> r == Err::<String, MemoryError>(MemoryError::NotACausalChain)
                && final(self)@ == old(self)@,
    {
        proof {
            if event is CausalChain {
                law_get_after_insert(old(self)@, spec_fingerprint(*event, id@), id@);
            }
        }
        match event {
            ProcessedEvent::CausalChain { chain_id, root_cause_service, chain, first_seen_ms, .. } => {
                let fp = Fingerprint {
                    id: id.clone(),
                    chain_id: chain_id.clone(),
                    ts_ms: *first_seen_ms,
                    root_cause_service: root_cause_service.clone(),
                    services: link_services(chain),
                    signatures: link_signatures(chain),
                    chain: clone_links(chain),
                    cause: None,
                    fix: None,
                    resolved_at_ms: None,
                    resolved_in_minutes: None,
                };
                proof {
                    assert(fp_view(fp) == spec_fingerprint(*event, id@));
                }
                self.insert(fp);
                Ok(id)
            },
            _ => Err(MemoryError::NotACausalChain),
        }
    }

    /// The fingerprint with this id.
    pub fn get(&self, incident_id: &str) -> (r: Option<Fingerprint>)
        ensures
            (match r {
                Some(f) => spec_get(self@, incident_id@) == Some(fp_view(f)),
                None => spec_get(self@, incident_id@) is None,
            }),
    {
        match self.index_of(incident_id) {
            Some(i) => Some(self.incidents[i].clone()),
            None => None,
        }
    }

    /// Attach a resolution card to a remembered incident; the updated
    /// fingerprint, or `None` for an unknown id.
    pub fn resolve(&mut self, incident_id: &str, card: ResolutionCard, now_ms: u64) -> (r: Option<
        Fingerprint,
    >)
        requires
            old(self).wf(),
        ensures
            final(self).wf(),
            (match spec_get(old(self)@, incident_id@) {
                Some(f) => {
                    let g = spec_resolved(f, card.cause@, card.fix@, now_ms);
                    &&& r is Some
                    &&& fp_view(r->0) == g
                    &&& final(self)@ == spec_insert(old(self)@, g)
                },
                None => r is None && final(self)@ == old(self)@,
            }),
            spec_get(old(self)@, incident_id@) is Some ==> spec_get(final(self)@, incident_id@) == Some(
                spec_resolved(spec_get(old(self)@, incident_id@)->0, card.cause@, card.fix@, now_ms),
            ),
            final(self)@.len() == old(self)@.len(),
    {
        proof {
            if spec_get(old(self)@, incident_id@) is Some {
                law_resolution_read_back(old(self)@, incident_id@, card.cause@, card.fix@, now_ms);
            }
        }
        match self.get(incident_id) {
            Some(mut fp) => {
                let minutes = minutes_between_exec(fp.ts_ms, now_ms);
                fp.cause = Some(card.cause);
                fp.fix = Some(card.fix);
                fp.resolved_at_ms = Some(now_ms);
                fp.resolved_in_minutes = Some(minutes);
                let out = fp.clone();
                proof {
                    lemma_id_index(self@, incident_id@);
                }
                self.insert(fp);
                Some(out)
            },
            None => None,
        }
    }

    /// Number of remembered incidents.
    pub fn count(&self) -> (n: u64)
        ensures
            n == self@.len(),
    {
        self.incidents.len() as u64
    }

    /// At most `limit` fingerprints, most recent first; a negative limit
    /// returns them all.
    pub fn recent(&self, limit: i64) -> (r: Vec<Fingerprint>)
        ensures
            r@.map_values(|f: Fingerprint| fp_view(f)) == spec_recent(self@, limit as int),
    {
        let ghost v = self@;
        let mut out: Vec<Fingerprint> = Vec::new();
        let mut i: usize = 0;
        while i < self.incidents.len()
            invariant
                0 <= i <= self.incidents@.len(),
                v == self@,
                out@.map_values(|f: Fingerprint| fp_view(f)) == sort_by(v.take(i as int), ts_le()),
            decreases self.incidents.len() - i,
        {
            let x = self.incidents[i].clone();
            let ghost xv = fp_view(x);
            let ghost cur = out@.map_values(|f: Fingerprint| fp_view(f));
            let mut j: usize = 0;
            while j < out.len() && out[j].ts_ms >= x.ts_ms
                invariant
                    0 <= j <= out@.len(),
                    cur == out@.map_values(|f: Fingerprint| fp_view(f)),
                    xv == fp_view(x),
                    forall|k: int| 0 <= k < j ==> (ts_le())(#[trigger] cur[k], xv),
                decreases out.len() - j,
            {
                j += 1;
            }
            proof {
                lemma_ins_pos_scan(cur, xv, ts_le(), j as int);
            }
            out.insert(j, x);
            i += 1;
            proof {
                let t = v.take(i as int);
                assert(t.drop_last() =~= v.take(i - 1));
                assert(t.last() == fp_view(self.incidents@[i - 1]));
                assert(out@.map_values(|f: Fingerprint| fp_view(f)) =~= cur.insert(j as int, xv));
            }
        }
        proof {
            assert(v.take(v.len() as int) =~= v);
            lemma_sort_len(v, ts_le());
        }
        if limit >= 0 && (limit as u128) < (out.len() as u128) {
            let ghost s = out@.map_values(|f: Fingerprint| fp_view(f));
            out.truncate(limit as usize);
            assert(out@.map_values(|f: Fingerprint| fp_view(f)) =~= s.take(limit as int));
        }
        out
    }

    /// Rank remembered fingerprints by similarity to `chain` and return at
    /// most `top_n` matches reaching `min_similarity_bp`, best first. The
    /// chain itself (same chain id) is never matched. An event that is not
    /// a `CausalChain` has no matches.
    pub fn search_similar(&self, chain: &ProcessedEvent, top_n: usize, min_similarity_bp: u32) -> (r:
        Vec<IncidentMatch>)
        ensures
            r@.map_values(|m: IncidentMatch| match_view(m)) == spec_search(
                self@,
                *chain,
                top_n as nat,
                min_similarity_bp,
            ),
    {
        let (chain_id, root, links) = match chain {
            ProcessedEvent::CausalChain { chain_id, root_cause_service, chain, .. } => (
                chain_id,
                root_cause_service,
                chain,
            ),
            _ => {
                let r: Vec<IncidentMatch> = Vec::new();
                assert(r@.map_values(|m: IncidentMatch| match_view(m)) =~= Seq::<MatchView>::empty());
                return r;
            },
        };
        let q_svcs = link_services(links);
        let q_sigs = link_signatures(links);
        let stored = self.recent(SEARCH_WINDOW);
        let ghost sv = stored@.map_values(|f: Fingerprint| fp_view(f));
        let mut out: Vec<IncidentMatch> = Vec::new();
        let mut i: usize = 0;
        while i < stored.len()
            invariant
                0 <= i <= stored@.len(),
                sv == stored@.map_values(|f: Fingerprint| fp_view(f)),
                out@.map_values(|m: IncidentMatch| match_view(m)) == sort_by(
                    scored(
                        sv.take(i as int),
                        names(q_sigs@),
                        names(q_svcs@),
                        root@,
                        chain_id@,
                        min_similarity_bp,
                    ),
                    sim_le(),
                ),
            decreases stored.len() - i,
        {
            let fp = &stored[i];
            let ghost t = sv.take(i + 1);
            proof {
                assert(t.drop_last() =~= sv.take(i as int));
                assert(t.last() == fp_view(*fp));
            }
            if !str_eq(fp.chain_id.as_str(), chain_id.as_str()) {
                let s = similarity(&q_sigs, &q_svcs, root, fp);
                if s >= min_similarity_bp {
                    let m = IncidentMatch {
                        incident_id: fp.id.clone(),
                        similarity_bp: s,
                        past_ts_ms: fp.ts_ms,
                        past_root_cause_service: fp.root_cause_service.clone(),
                        past_cause: clone_opt_string(&fp.cause),
                        past_fix: clone_opt_string(&fp.fix),
                        past_resolved_in_minutes: fp.resolved_in_minutes,
                    };
                    let ghost mv = match_view(m);
                    assert(mv == to_match(s, fp_view(*fp)));
                    let ghost cur = out@.map_values(|x: IncidentMatch| match_view(x));
                    let mut j: usize = 0;
                    while j < out.len() && out[j].similarity_bp >= m.similarity_bp
                        invariant
                            0 <= j <= out@.len(),
                            cur == out@.map_values(|x: IncidentMatch| match_view(x)),
                            mv == match_view(m),
                            forall|k: int| 0 <= k < j ==> (sim_le())(#[trigger] cur[k], mv),
                        decreases out.len() - j,
                    {
                        j += 1;
                    }
                    proof {
                        lemma_ins_pos_scan(cur, mv, sim_le(), j as int);
                    }
                    out.insert(j, m);
                    proof {
                        assert(out@.map_values(|x: IncidentMatch| match_view(x)) =~= cur.insert(
                            j as int,
                            mv,
                        ));
                        let sc = scored(
                            t,
                            names(q_sigs@),
                            names(q_svcs@),
                            root@,
                            chain_id@,
                            min_similarity_bp,
                        );
                        assert(sc.drop_last() =~= scored(
                            sv.take(i as int),
                            names(q_sigs@),
                            names(q_svcs@),
                            root@,
                            chain_id@,
                            min_similarity_bp,
                        ));
                    }
                }
            }
            i += 1;
        }
        proof {
            assert(sv.take(sv.len() as int) =~= sv);
            lemma_sort_len(
                scored(sv, names(q_sigs@), names(q_svcs@), root@, chain_id@, min_similarity_bp),
                sim_le(),
            );
        }
        if out.len() > top_n {
            let ghost s = out@.map_values(|x: IncidentMatch| match_view(x));
            out.truncate(top_n);
            assert(out@.map_values(|x: IncidentMatch| match_view(x)) =~= s.take(top_n as int));
        }
        out
    }
}

impl Clone for Store {
    fn clone(&self) -> (r: Self)
        ensures
            r@ == self@,
            self.wf() ==> r.wf(),
    {
        let mut incidents: Vec<Fingerprint> = Vec::new();
        let mut i: usize = 0;
        while i < self.incidents.len()
            invariant
                0 <= i <= self.incidents@.len(),
                incidents@.len() == i,
                incidents@.map_values(|f: Fingerprint| fp_view(f)) == self@.take(i as int),
            decreases self.incidents.len() - i,
        {
            let f = self.incidents[i].clone();
            let ghost before = incidents@;
            assert(fp_view(f) == self@[i as int]);
            incidents.push(f);
            i += 1;
            proof {
                let m = incidents@.map_values(|f: Fingerprint| fp_view(f));
                let mb = before.map_values(|f: Fingerprint| fp_view(f));
                assert forall|j: int| 0 <= j < i implies #[trigger] m[j] == self@.take(i as int)[j] by {
                    if j < i - 1 {
                        assert(incidents@[j] == before[j]);
                        assert(mb[j] == self@.take(i - 1)[j]);
                    }
                }
                assert(m =~= self@.take(i as int));
            }
        }
        let r = Store { incidents };
        assert(self@.take(self@.len() as int) =~= self@);
        r
    }
}

// ---------------------------------------------------------------------------
// Laws
// ---------------------------------------------------------------------------

proof fn lemma_id_index_unique(v: Seq<FingerprintView>, id: Seq<char>, p: int)
    requires
        distinct_ids(v),
        0 <= p < v.len(),
        v[p].id == id,
    ensures
        id_index(v, id) == p,
{
    lemma_id_index(v, id);
    let i = id_index(v, id);
    if i != p {
        if i < p {
            assert(v[i].id != v[p].id);
        } else {
            assert(v[p].id != v[i].id);
        }
    }
}

/// What is remembered can be read back by its id, and every other
/// fingerprint reads as before; ids stay distinct.
pub proof fn law_get_after_insert(v: Seq<FingerprintView>, f: FingerprintView, other: Seq<char>)
    requires
        distinct_ids(v),
    ensures
        distinct_ids(spec_insert(v, f)),
        spec_get(spec_insert(v, f), f.id) == Some(f),
        other != f.id ==> spec_get(spec_insert(v, f), other) == spec_get(v, other),
        spec_insert(v, f).len() == v.len() + (if spec_get(v, f.id) is Some {
            0int
        } else {
            1
        }),
{
    let w = spec_insert(v, f);
    lemma_id_index(v, f.id);
    lemma_id_index(v, other);
    let i = id_index(v, f.id);
    assert forall|a: int, b: int| 0 <= a < b < w.len() implies #[trigger] w[a].id != #[trigger] w[b].id by {
        if i >= 0 {
            if a != i && b != i {
                assert(w[a] == v[a] && w[b] == v[b]);
            } else if a == i {
                assert(w[b] == v[b]);
            } else {
                assert(w[a] == v[a]);
            }
        } else {
            assert(w[a] == v[a]);
            if b < v.len() {
                assert(w[b] == v[b]);
            }
        }
    }
    let pos = if i >= 0 {
        i
    } else {
        v.len() as int
    };
    lemma_id_index_unique(w, f.id, pos);
    if other != f.id {
        let k = id_index(v, other);
        lemma_id_index(w, other);
        if k >= 0 {
            assert(w[k] == v[k]);
            lemma_id_index_unique(w, other, k);
        } else {
            let kw = id_index(w, other);
            if kw >= 0 && kw < v.len() && kw != i {
                assert(w[kw] == v[kw]);
            }
        }
    }
}

/// A resolution card is read back with the incident: cause, fix, the time
/// of resolution and the minutes it took; the chain itself is unchanged.
pub proof fn law_resolution_read_back(
    v: Seq<FingerprintView>,
    id: Seq<char>,
    cause: Seq<char>,
    fix: Seq<char>,
    now_ms: u64,
)
    requires
        distinct_ids(v),
        spec_get(v, id) is Some,
    ensures
        ({
            let f = spec_get(v, id)->0;
            let g = spec_resolved(f, cause, fix, now_ms);
            &&& spec_get(spec_insert(v, g), id) == Some(g)
            &&& spec_is_resolved(g)
            &&& g.cause == Some(cause) && g.fix == Some(fix)
            &&& g.resolved_at_ms == Some(now_ms)
            &&& g.resolved_in_minutes == Some(minutes_between(f.ts_ms, now_ms))
            &&& g.chain_id == f.chain_id && g.services == f.services && g.signatures == f.signatures
            &&& spec_insert(v, g).len() == v.len()
        }),
{
    lemma_id_index(v, id);
    let f = spec_get(v, id)->0;
    let g = spec_resolved(f, cause, fix, now_ms);
    law_get_after_insert(v, g, id);
}

/// Every candidate match comes from a stored fingerprint of another chain
/// and reaches the minimum similarity.
proof fn lemma_scored_members(
    stored: Seq<FingerprintView>,
    q_signatures: Seq<Seq<char>>,
    q_services: Seq<Seq<char>>,
    q_root: Seq<char>,
    q_chain_id: Seq<char>,
    min_bp: u32,
)
    ensures
        forall|m: MatchView|
            #[trigger] scored(stored, q_signatures, q_services, q_root, q_chain_id, min_bp).contains(m)
                ==> exists|k: int|
                0 <= k < stored.len() && stored[k].chain_id != q_chain_id && m == to_match(
                    spec_similarity(q_signatures, q_services, q_root, stored[k]),
                    stored[k],
                ) && m.similarity_bp >= min_bp,
    decreases stored.len(),
{
    let d = stored.drop_last();
    if stored.len() > 0 {
        lemma_scored_members(d, q_signatures, q_services, q_root, q_chain_id, min_bp);
        let sc = scored(stored, q_signatures, q_services, q_root, q_chain_id, min_bp);
        let sd = scored(d, q_signatures, q_services, q_root, q_chain_id, min_bp);
        assert forall|m: MatchView| #[trigger] sc.contains(m) implies exists|k: int|
            0 <= k < stored.len() && stored[k].chain_id != q_chain_id && m == to_match(
                spec_similarity(q_signatures, q_services, q_root, stored[k]),
                stored[k],
            ) && m.similarity_bp >= min_bp by {
            let j = choose|j: int| 0 <= j < sc.len() && sc[j] == m;
            if j < sd.len() {
                assert(sc[j] == sd[j]);
                assert(sd.contains(m));
                let k = choose|k: int|
                    0 <= k < d.len() && d[k].chain_id != q_chain_id && m == to_match(
                        spec_similarity(q_signatures, q_services, q_root, d[k]),
                        d[k],
                    ) && m.similarity_bp >= min_bp;
                assert(stored[k] == d[k]);
            } else {
                assert(stored[stored.len() - 1] == stored.last());
            }
        }
    }
}

proof fn lemma_sim_order_total()
    ensures
        total_order(sim_le()),
{
}

/// Similar-incident search: at most `top_n` matches, best first, each
/// reaching the minimum similarity and at most 100%, each a remembered
/// fingerprint of *another* chain with its own score and its past fields
/// copied (`to_match`).
pub proof fn law_search_results(v: Seq<FingerprintView>, chain: ProcessedEvent, top_n: nat, min_bp: u32)
    ensures
        spec_search(v, chain, top_n, min_bp).len() <= top_n,
        forall|i: int, j: int|
            0 <= i < j < spec_search(v, chain, top_n, min_bp).len() ==> (#[trigger] spec_search(
                v,
                chain,
                top_n,
                min_bp,
            )[i]).similarity_bp >= (#[trigger] spec_search(v, chain, top_n, min_bp)[j]).similarity_bp,
        forall|i: int|
            0 <= i < spec_search(v, chain, top_n, min_bp).len() ==> {
                let m = #[trigger] spec_search(v, chain, top_n, min_bp)[i];
                &&& min_bp <= m.similarity_bp <= 10000
                &&& exists|k: int|
                    0 <= k < v.len() && m == to_match(chain_similarity(chain, v[k]), v[k]) && m.incident_id == v[k].id && m.past_root_cause_service
                        == v[k].root_cause_service && m.past_cause == v[k].cause && m.past_fix
                        == v[k].fix && (chain matches ProcessedEvent::CausalChain { chain_id, .. }
                        && v[k].chain_id != chain_id@)
            },
{
    match chain {
        ProcessedEvent::CausalChain { chain_id, root_cause_service, chain: links, .. } => {
            let stored = spec_recent(v, SEARCH_WINDOW as int);
            let qs = links@.map_values(|l: CausalLink| l.signature@);
            let qv = links@.map_values(|l: CausalLink| l.service@);
            let sc = scored(stored, qs, qv, root_cause_service@, chain_id@, min_bp);
            let st = sort_by(sc, sim_le());
            let r = first_n(st, top_n);
            lemma_scored_members(stored, qs, qv, root_cause_service@, chain_id@, min_bp);
            lemma_sort_contains(sc, sim_le());
            lemma_sim_order_total();
            lemma_sort_sorted(sc, sim_le());
            let sorted_v = sort_by(v, ts_le());
            lemma_sort_contains(v, ts_le());
            lemma_sort_len(v, ts_le());
            assert forall|i: int, j: int| 0 <= i < j < r.len() implies (#[trigger] r[i]).similarity_bp
                >= (#[trigger] r[j]).similarity_bp by {
                assert(r[i] == st[i] && r[j] == st[j]);
                assert((sim_le())(st[i], st[j]));
            }
            assert forall|i: int| 0 <= i < r.len() implies {
                let m = #[trigger] r[i];
                &&& min_bp <= m.similarity_bp <= 10000
                &&& exists|k: int|
                    0 <= k < v.len() && m == to_match(chain_similarity(chain, v[k]), v[k]) && m.incident_id == v[k].id && m.past_root_cause_service
                        == v[k].root_cause_service && m.past_cause == v[k].cause && m.past_fix
                        == v[k].fix && (chain matches ProcessedEvent::CausalChain { chain_id, .. }
                        && v[k].chain_id != chain_id@)
            } by {
                let m = r[i];
                assert(r[i] == st[i]);
                assert(st.contains(m));
                assert(sc.contains(m));
                let k = choose|k: int|
                    0 <= k < stored.len() && stored[k].chain_id != chain_id@ && m == to_match(
                        spec_similarity(qs, qv, root_cause_service@, stored[k]),
                        stored[k],
                    ) && m.similarity_bp >= min_bp;
                let f = stored[k];
                assert(stored[k] == sorted_v[k]);
                assert(sorted_v.contains(f));
                assert(v.contains(f));
                let kk = choose|kk: int| 0 <= kk < v.len() && v[kk] == f;
                assert(v[kk] == f);
            }
        },
        _ => {},
    }
}

/// How similar a remembered fingerprint is to a chain, as the search scores
/// it (0 for an event that is not a chain).
pub open spec fn chain_similarity(e: ProcessedEvent, f: FingerprintView) -> u32 {
    match e {
        ProcessedEvent::CausalChain { root_cause_service, chain, .. } => spec_similarity(
            chain@.map_values(|l: CausalLink| l.signature@),
            chain@.map_values(|l: CausalLink| l.service@),
            root_cause_service@,
            f,
        ),
        _ => 0,
    }
}

/// The chain id of a chain (empty for any other event).
pub open spec fn chain_id_of(e: ProcessedEvent) -> Seq<char> {
    match e {
        ProcessedEvent::CausalChain { chain_id, .. } => chain_id@,
        _ => Seq::empty(),
    }
}

/// What `spec_get` returns is stored in the table, under that id.
pub proof fn lemma_get_member(v: Seq<FingerprintView>, id: Seq<char>)
    requires
        spec_get(v, id) is Some,
    ensures
        v.contains(spec_get(v, id)->0),
        spec_get(v, id)->0.id == id,
{
    lemma_id_index(v, id);
    assert(v[id_index(v, id)] == spec_get(v, id)->0);
}

proof fn lemma_scored_len(
    stored: Seq<FingerprintView>,
    q_signatures: Seq<Seq<char>>,
    q_services: Seq<Seq<char>>,
    q_root: Seq<char>,
    q_chain_id: Seq<char>,
    min_bp: u32,
)
    ensures
        scored(stored, q_signatures, q_services, q_root, q_chain_id, min_bp).len() <= stored.len(),
    decreases stored.len(),
{
    if stored.len() > 0 {
        lemma_scored_len(stored.drop_last(), q_signatures, q_services, q_root, q_chain_id, min_bp);
    }
}

/// A stored fingerprint of another chain that reaches the minimum is a
/// candidate.
proof fn lemma_scored_includes(
    stored: Seq<FingerprintView>,
    q_signatures: Seq<Seq<char>>,
    q_services: Seq<Seq<char>>,
    q_root: Seq<char>,
    q_chain_id: Seq<char>,
    min_bp: u32,
    f: FingerprintView,
)
    requires
        stored.contains(f),
        f.chain_id != q_chain_id,
        spec_similarity(q_signatures, q_services, q_root, f) >= min_bp,
    ensures
        scored(stored, q_signatures, q_services, q_root, q_chain_id, min_bp).contains(
            to_match(spec_similarity(q_signatures, q_services, q_root, f), f),
        ),
    decreases stored.len(),
{
    let d = stored.drop_last();
    let m = to_match(spec_similarity(q_signatures, q_services, q_root, f), f);
    let sd = scored(d, q_signatures, q_services, q_root, q_chain_id, min_bp);
    let sc = scored(stored, q_signatures, q_services, q_root, q_chain_id, min_bp);
    if stored.last() == f {
        assert(sc[sc.len() - 1] == m);
    } else {
        let k = choose|k: int| 0 <= k < stored.len() && stored[k] == f;
        assert(k < stored.len() - 1);
        assert(d[k] == f);
        lemma_scored_includes(d, q_signatures, q_services, q_root, q_chain_id, min_bp, f);
        let j = choose|j: int| 0 <= j < sd.len() && sd[j] == m;
        assert(sc[j] == m);
    }
}

/// A remembered incident of another chain that is similar enough to a chain
/// is among the search results, with its cause and fix, when the table lies
/// within the search window and the search may return every candidate.
pub proof fn law_search_finds(
    v: Seq<FingerprintView>,
    id: Seq<char>,
    chain: ProcessedEvent,
    top_n: nat,
    min_bp: u32,
)
    requires
        distinct_ids(v),
        spec_get(v, id) is Some,
        v.len() <= SEARCH_WINDOW,
        v.len() <= top_n,
        chain is CausalChain,
        spec_get(v, id)->0.chain_id != chain_id_of(chain),
        chain_similarity(chain, spec_get(v, id)->0) >= min_bp,
    ensures
        ({
            let f = spec_get(v, id)->0;
            exists|i: int|
                0 <= i < spec_search(v, chain, top_n, min_bp).len() && #[trigger] spec_search(
                    v,
                    chain,
                    top_n,
                    min_bp,
                )[i] == to_match(chain_similarity(chain, f), f)
        }),
        forall|i: int|
            0 <= i < spec_search(v, chain, top_n, min_bp).len() && (#[trigger] spec_search(
                v,
                chain,
                top_n,
                min_bp,
            )[i]).incident_id == id ==> spec_search(v, chain, top_n, min_bp)[i].past_fix
                == spec_get(v, id)->0.fix && spec_search(v, chain, top_n, min_bp)[i].past_cause
                == spec_get(v, id)->0.cause,
{
    match chain {
        ProcessedEvent::CausalChain { chain_id, root_cause_service, chain: links, .. } => {
            let f = spec_get(v, id)->0;
            lemma_get_member(v, id);
            let qs = links@.map_values(|l: CausalLink| l.signature@);
            let qv = links@.map_values(|l: CausalLink| l.service@);
            let st = sort_by(v, ts_le());
            lemma_sort_contains(v, ts_le());
            lemma_sort_len(v, ts_le());
            let stored = spec_recent(v, SEARCH_WINDOW as int);
            assert(stored == st);
            let s = spec_similarity(qs, qv, root_cause_service@, f);
            lemma_scored_includes(stored, qs, qv, root_cause_service@, chain_id@, min_bp, f);
            lemma_scored_len(stored, qs, qv, root_cause_service@, chain_id@, min_bp);
            let sc = scored(stored, qs, qv, root_cause_service@, chain_id@, min_bp);
            let so = sort_by(sc, sim_le());
            lemma_sort_contains(sc, sim_le());
            lemma_sort_len(sc, sim_le());
            assert(spec_search(v, chain, top_n, min_bp) == so);
            assert(so.contains(to_match(s, f)));
            let i = choose|i: int| 0 <= i < so.len() && so[i] == to_match(s, f);
            assert(spec_search(v, chain, top_n, min_bp)[i] == to_match(chain_similarity(chain, f), f));
            lemma_scored_members(stored, qs, qv, root_cause_service@, chain_id@, min_bp);
            assert forall|j: int|
                0 <= j < spec_search(v, chain, top_n, min_bp).len() && (#[trigger] spec_search(
                    v,
                    chain,
                    top_n,
                    min_bp,
                )[j]).incident_id == id implies spec_search(v, chain, top_n, min_bp)[j].past_fix
                == f.fix && spec_search(v, chain, top_n, min_bp)[j].past_cause == f.cause by {
                let m = so[j];
                assert(so.contains(m));
                assert(sc.contains(m));
                let k = choose|k: int|
                    0 <= k < stored.len() && stored[k].chain_id != chain_id@ && m == to_match(
                        spec_similarity(qs, qv, root_cause_service@, stored[k]),
                        stored[k],
                    ) && m.similarity_bp >= min_bp;
                assert(st.contains(stored[k]));
                assert(v.contains(stored[k]));
                let kk = choose|kk: int| 0 <= kk < v.len() && v[kk] == stored[k];
                lemma_id_index_unique(v, id, kk);
            }
        },
        _ => {},
    }
}

/// The candidates a search ranks: every fingerprint among the 2048 most
/// recent that belongs to another chain and reaches the minimum similarity
/// (none for an event that is not a chain).
pub open spec fn eligible(v: Seq<FingerprintView>, e: ProcessedEvent, min_bp: u32) -> Seq<MatchView> {
    match e {
        ProcessedEvent::CausalChain { chain_id, root_cause_service, chain, .. } => scored(
            spec_recent(v, SEARCH_WINDOW as int),
            chain@.map_values(|l: CausalLink| l.signature@),
            chain@.map_values(|l: CausalLink| l.service@),
            root_cause_service@,
            chain_id@,
            min_bp,
        ),
        _ => Seq::empty(),
    }
}

/// The search returns a best `top_n` of the eligible candidates: as many as
/// fit (`min(top_n, eligible)`), a prefix of the candidates ranked by
/// similarity (the ranking holds exactly the candidates), and no candidate
/// left out scores higher than one returned.
pub proof fn law_search_best(v: Seq<FingerprintView>, chain: ProcessedEvent, top_n: nat, min_bp: u32)
    ensures
        ({
            let el = eligible(v, chain, min_bp);
            let ranked = sort_by(el, sim_le());
            let r = spec_search(v, chain, top_n, min_bp);
            &&& r.len() == (if el.len() <= top_n {
                el.len()
            } else {
                top_n
            })
            &&& r == ranked.take(r.len() as int)
            &&& ranked.to_multiset() == el.to_multiset()
            &&& forall|i: int, j: int|
                0 <= i < r.len() <= j < ranked.len() ==> (#[trigger] ranked[i]).similarity_bp >= (
                #[trigger] ranked[j]).similarity_bp
        }),
{
    let el = eligible(v, chain, min_bp);
    let ranked = sort_by(el, sim_le());
    lemma_sort_contains(el, sim_le());
    lemma_sort_len(el, sim_le());
    lemma_sim_order_total();
    lemma_sort_sorted(el, sim_le());
    match chain {
        ProcessedEvent::CausalChain { .. } => {
            assert(spec_search(v, chain, top_n, min_bp) == first_n(ranked, top_n));
            if ranked.len() <= top_n {
                assert(ranked == ranked.take(ranked.len() as int));
            }
        },
        _ => {
            assert(el.len() == 0);
            assert(spec_search(v, chain, top_n, min_bp) =~= ranked.take(0));
        },
    }
    assert forall|i: int, j: int|
        0 <= i < spec_search(v, chain, top_n, min_bp).len() <= j < ranked.len() implies (
        #[trigger] ranked[i]).similarity_bp >= (#[trigger] ranked[j]).similarity_bp by {
        assert((sim_le())(ranked[i], ranked[j]));
    }
}

/// The most recent fingerprints: newest first, at most `limit` of them (all
/// of them for a negative limit), each a remembered one.
pub proof fn law_recent(v: Seq<FingerprintView>, limit: int)
    ensures
        spec_recent(v, limit).len() == (if limit < 0 || limit > v.len() {
            v.len() as int
        } else {
            limit
        }),
        forall|i: int, j: int|
            0 <= i < j < spec_recent(v, limit).len() ==> (#[trigger] spec_recent(v, limit)[i]).ts_ms
                >= (#[trigger] spec_recent(v, limit)[j]).ts_ms,
        forall|i: int| 0 <= i < spec_recent(v, limit).len() ==> v.contains(#[trigger] spec_recent(v, limit)[i]),
{
    let st = sort_by(v, ts_le());
    lemma_sort_len(v, ts_le());
    lemma_sort_contains(v, ts_le());
    assert(total_order(ts_le()));
    lemma_sort_sorted(v, ts_le());
    let r = spec_recent(v, limit);
    assert forall|i: int, j: int| 0 <= i < j < r.len() implies (#[trigger] r[i]).ts_ms >= (#[trigger] r[j]).ts_ms by {
        assert(r[i] == st[i] && r[j] == st[j]);
        assert((ts_le())(st[i], st[j]));
    }
    assert forall|i: int| 0 <= i < r.len() implies v.contains(#[trigger] r[i]) by {
        assert(r[i] == st[i]);
        assert(st.contains(st[i]));
    }
}

} // verus!
