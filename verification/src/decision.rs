//! Decision engine — turns raw signals into the focused card an engineer reads.
//!
//! Instead of asking the human to pick a tool, Aegis presents:
//!
//!   * the current health state (green / orange / red),
//!   * the probable root cause (with confidence),
//!   * the most similar past incident, including the fix that worked,
//!   * one concrete next step (where to look),
//!   * a one-line business-impact sentence for the affected service.
//!
//! The engine is a thin synthesiser: dedup, causal attribution, similarity
//! ranking and silence detection happen upstream; this module picks a shape
//! and writes the plain-English copy.

use vstd::prelude::*;
use crate::event::{saturating_diff, CausalLink, HealthState, IncidentMatch, ProcessedEvent};
use crate::incident_memory::{
    chain_id_of, chain_similarity, distinct_ids, fp_view, law_get_after_insert, law_search_finds,
    lemma_get_member,
    match_view, opt_chars, spec_fingerprint, Fingerprint, spec_insert,
    spec_search, spec_get, spec_resolved, FingerprintView, MatchView, ResolutionCard,
    Store, SEARCH_WINDOW,
};
use crate::service_catalog::{spec_lookup, ServiceCatalog};
use crate::table::TableView;
use crate::similarity::names;
use crate::text::{
    byte_len, byte_prefix_len, bytes_exceed, fit_from, lemma_byte_len_step, prefix_bytes, utf8_width_of,
    append_chars, append_str, chars_of, decimal, decimal_of, signed_decimal, signed_decimal_of,
    string_from, trim, trim_chars,
};

verus! {

// ---------------------------------------------------------------------------
// Copy
// ---------------------------------------------------------------------------

/// A basis-point value as a whole percentage, rounded half up.
pub open spec fn pct(bp: u32) -> nat {
    ((bp + 50) / 100) as nat
}

fn pct_of(bp: u32) -> (p: u64)
    ensures
        p == pct(bp),
{
    ((bp as u64) + 50) / 100
}

/// How long after the root cause a follower broke: under a second is
/// "almost immediately", under a minute whole seconds, else minutes to one
/// decimal (both rounded half up).
pub open spec fn spec_format_offset(delta_ms: u64) -> Seq<char> {
    if delta_ms < 1000 {
        "almost immediately"@
    } else if delta_ms < 60000 {
        decimal(((delta_ms + 500) / 1000) as nat) + "s"@
    } else {
        let tenths = ((delta_ms + 3000) / 6000) as nat;
        decimal(tenths / 10) + "."@ + decimal(tenths % 10) + " min"@
    }
}

/// Renders an offset in milliseconds for a headline.
pub fn format_offset(delta_ms: u64) -> (s: String)
    ensures
        s@ == spec_format_offset(delta_ms),
{
    let mut v: Vec<char> = Vec::new();
    if delta_ms < 1000 {
        append_str(&mut v, "almost immediately");
    } else if delta_ms < 60000 {
        let secs = (delta_ms + 500) / 1000;
        let d = decimal_of(secs);
        append_chars(&mut v, d.as_slice());
        append_str(&mut v, "s");
    } else {
        let tenths: u64 = delta_ms / 6000 + if delta_ms % 6000 >= 3000 {
            1
        } else {
            0
        };
        assert(tenths == (delta_ms + 3000) / 6000);
        let whole = decimal_of(tenths / 10);
        let frac = decimal_of(tenths % 10);
        append_chars(&mut v, whole.as_slice());
        append_str(&mut v, ".");
        append_chars(&mut v, frac.as_slice());
        append_str(&mut v, " min");
    }
    string_from(v.as_slice())
}

/// A sample trimmed, with line breaks turned into spaces.
pub open spec fn clean_sample(s: Seq<char>) -> Seq<char> {
    trim(s).map_values(|c: char| if c == '\n' || c == '\r' { ' ' } else { c })
}

/// Samples longer than 140 bytes are cut at byte 137; the cut must fall
/// between two characters.
pub open spec fn sample_cut_ok(s: Seq<char>) -> bool {
    let c = clean_sample(s);
    byte_len(c) <= 140 || byte_len(c.take(fit_from(c, 137, 0) as int)) == 137
}

/// A sample as shown on a card: cleaned, and cut to 137 bytes plus `...`
/// when longer than 140 bytes.
pub open spec fn spec_trim_sample(s: Seq<char>) -> Seq<char> {
    let c = clean_sample(s);
    if byte_len(c) > 140 {
        c.take(fit_from(c, 137, 0) as int) + "..."@
    } else {
        c
    }
}

/// A log line made presentable for a card.
pub fn trim_sample(sample: &str) -> (r: String)
    requires
        sample_cut_ok(sample@),
    ensures
        r@ == spec_trim_sample(sample@),
{
    let v = chars_of(sample);
    let t = trim_chars(v.as_slice());
    let mut c: Vec<char> = Vec::new();
    let mut i: usize = 0;
    while i < t.len()
        invariant
            0 <= i <= t@.len(),
            t@ == trim(sample@),
            c@ == t@.take(i as int).map_values(
                |c: char|
                    if c == '\n' || c == '\r' {
                        ' '
                    } else {
                        c
                    },
            ),
        decreases t.len() - i,
    {
        let x = t[i];
        if x == '\n' || x == '\r' {
            c.push(' ');
        } else {
            c.push(x);
        }
        i += 1;
        proof {
            let f = |c: char|
                if c == '\n' || c == '\r' {
                    ' '
                } else {
                    c
                };
            assert(c@ =~= t@.take(i as int).map_values(f));
        }
    }
    assert(t@.take(t@.len() as int) =~= t@);
    let ghost cv = clean_sample(sample@);
    assert(c@ == cv);
    // Total length, saturated just above the limit.
    let mut total: usize = 0;
    let mut j: usize = 0;
    while j < c.len()
        invariant
            0 <= j <= c@.len(),
            total == if byte_len(c@.take(j as int)) > 141 {
                141
            } else {
                byte_len(c@.take(j as int))
            },
        decreases c.len() - j,
    {
        proof {
            lemma_byte_len_step(c@, j as int);
        }
        let w = utf8_width_of(c[j]);
        total = if total + w > 141 {
            141
        } else {
            total + w
        };
        j += 1;
    }
    assert(c@.take(c@.len() as int) =~= c@);
    if total > 140 {
        let mut k: usize = 0;
        let mut acc: usize = 0;
        while k < c.len() && acc + utf8_width_of(c[k]) <= 137
            invariant
                0 <= k <= c@.len(),
                acc == byte_len(c@.take(k as int)),
                acc <= 137,
                fit_from(c@, 137, 0) == fit_from(c@, 137, k as nat),
            decreases c.len() - k,
        {
            proof {
                lemma_byte_len_step(c@, k as int);
            }
            acc = acc + utf8_width_of(c[k]);
            k += 1;
        }
        proof {
            if k < c@.len() {
                lemma_byte_len_step(c@, k as int);
            }
        }
        let mut out: Vec<char> = Vec::new();
        let mut m: usize = 0;
        while m < k
            invariant
                0 <= m <= k <= c@.len(),
                out@ == c@.take(m as int),
            decreases k - m,
        {
            out.push(c[m]);
            m += 1;
            assert(out@ =~= c@.take(m as int));
        }
        append_str(&mut out, "...");
        string_from(out.as_slice())
    } else {
        string_from(c.as_slice())
    }
}

/// Whether a sample cuts cleanly (see [`sample_cut_ok`]).
pub fn sample_cuts_cleanly(sample: &str) -> (b: bool)
    ensures
        b == sample_cut_ok(sample@),
{
    let v = chars_of(sample);
    let t = trim_chars(v.as_slice());
    let mut c: Vec<char> = Vec::new();
    let mut i: usize = 0;
    while i < t.len()
        invariant
            0 <= i <= t@.len(),
            t@ == trim(sample@),
            c@ == t@.take(i as int).map_values(
                |c: char|
                    if c == '\n' || c == '\r' {
                        ' '
                    } else {
                        c
                    },
            ),
        decreases t.len() - i,
    {
        let x = t[i];
        if x == '\n' || x == '\r' {
            c.push(' ');
        } else {
            c.push(x);
        }
        i += 1;
        proof {
            let f = |c: char|
                if c == '\n' || c == '\r' {
                    ' '
                } else {
                    c
                };
            assert(c@ =~= t@.take(i as int).map_values(f));
        }
    }
    assert(t@.take(t@.len() as int) =~= t@);
    if !bytes_exceed(c.as_slice(), 140) {
        return true;
    }
    let k = byte_prefix_len(c.as_slice(), 137);
    prefix_bytes(c.as_slice(), k, 137) == 137
}

/// One " <service> followed <offset> later." sentence per link.
pub open spec fn follower_sentences(links: Seq<CausalLink>, first_ts_ms: u64) -> Seq<char>
    decreases links.len(),
{
    if links.len() == 0 {
        Seq::empty()
    } else {
        let l = links.last();
        follower_sentences(links.drop_last(), first_ts_ms) + " "@ + l.service@ + " followed "@
            + spec_format_offset(saturating_diff(l.ts_ms, first_ts_ms)) + " later."@
    }
}

/// The card headline for a chain: the root, each follower with its offset
/// from the root, and the confidence.
pub open spec fn spec_headline(root: Seq<char>, links: Seq<CausalLink>, confidence_bp: u32) -> Seq<
    char,
> {
    if links.len() < 2 {
        root + " fired a new pattern."@
    } else {
        root + " broke first."@ + follower_sentences(links.drop_first(), links[0].ts_ms)
            + " Root cause: "@ + root + " ("@ + decimal(pct(confidence_bp)) + "% confidence)."@
    }
}

/// Writes the headline of a red card.
pub fn headline_for_chain(root: &str, links: &[CausalLink], confidence_bp: u32) -> (h: String)
    ensures
        h@ == spec_headline(root@, links@, confidence_bp),
{
    let mut v: Vec<char> = Vec::new();
    if links.len() < 2 {
        append_str(&mut v, root);
        append_str(&mut v, " fired a new pattern.");
        return string_from(v.as_slice());
    }
    let first_ts = links[0].ts_ms;
    append_str(&mut v, root);
    append_str(&mut v, " broke first.");
    let ghost head = v@;
    let ghost rest = links@.drop_first();
    let mut i: usize = 1;
    while i < links.len()
        invariant
            1 <= i <= links@.len(),
            first_ts == links@[0].ts_ms,
            rest == links@.drop_first(),
            v@ == head + follower_sentences(rest.take(i - 1), first_ts),
        decreases links.len() - i,
    {
        let l = &links[i];
        let delta = if l.ts_ms >= first_ts {
            l.ts_ms - first_ts
        } else {
            0
        };
        let off = format_offset(delta);
        append_str(&mut v, " ");
        append_str(&mut v, l.service.as_str());
        append_str(&mut v, " followed ");
        append_str(&mut v, off.as_str());
        append_str(&mut v, " later.");
        proof {
            let t = rest.take(i as int);
            assert(t.drop_last() =~= rest.take(i - 1));
            assert(t.last() == links@[i as int]);
        }
        i += 1;
    }
    assert(rest.take(links@.len() - 1) =~= rest);
    append_str(&mut v, " Root cause: ");
    append_str(&mut v, root);
    append_str(&mut v, " (");
    let p = decimal_of(pct_of(confidence_bp));
    append_chars(&mut v, p.as_slice());
    append_str(&mut v, "% confidence).");
    string_from(v.as_slice())
}

/// Index of the first match that carries both a cause and a fix, or `-1`.
pub open spec fn first_resolved(similar: Seq<MatchView>) -> int
    decreases similar.len(),
{
    if similar.len() == 0 {
        -1
    } else if similar[0].past_cause is Some && similar[0].past_fix is Some {
        0
    } else {
        let r = first_resolved(similar.drop_first());
        if r < 0 {
            -1
        } else {
            r + 1
        }
    }
}

/// " (fixed in N min last time)" when the resolution time is known.
pub open spec fn resolved_in_text(minutes: Option<i64>) -> Seq<char> {
    match minutes {
        Some(m) => " (fixed in "@ + signed_decimal(m as int) + " min last time)"@,
        None => Seq::empty(),
    }
}

/// The next step that quotes a past incident's cause and fix verbatim.
pub open spec fn fix_quote(m: MatchView) -> Seq<char> {
    "This looks "@ + decimal(pct(m.similarity_bp)) + "% similar to a past incident"@
        + resolved_in_text(m.past_resolved_in_minutes) + ". Last time the cause was: \""@
        + m.past_cause->0 + "\". The fix was: \""@ + m.past_fix->0 + "\". Start by verifying that."@
}

/// The next step: the fix of the best past match that has one; else a
/// nudge about the best match; else the first-time copy, quoting the
/// earliest signal when there is one.
pub open spec fn spec_next_step(root: Seq<char>, links: Seq<CausalLink>, similar: Seq<MatchView>) -> Seq<
    char,
> {
    let k = first_resolved(similar);
    if k >= 0 {
        fix_quote(similar[k])
    } else if similar.len() > 0 {
        "This looks "@ + decimal(pct(similar[0].similarity_bp))
            + "% similar to a past incident \u{2014} but no one ever filled in what fixed it. Check "@
            + root
            + " health and recent deploys; please record a resolution card when you fix this one so the next on-call has a head start."@
    } else {
        let sample = if links.len() > 0 {
            spec_trim_sample(links[0].sample@)
        } else {
            Seq::empty()
        };
        if sample.len() == 0 {
            "Check "@ + root
                + " health, recent deploys, and dependency status. This is the first time Aegis has seen this incident shape, so please record a resolution card when you fix it."@
        } else {
            "Check "@ + root + " health and recent deploys. Earliest signal: "@ + sample
                + ". This is the first time Aegis has seen this incident shape; please record a resolution card when you fix it."@
        }
    }
}

/// The first-time copy quotes the first link's sample, which must cut
/// cleanly (see [`trim_sample`]).
pub open spec fn next_step_ok(links: Seq<CausalLink>, similar_len: nat) -> bool {
    similar_len == 0 && links.len() > 0 ==> sample_cut_ok(links[0].sample@)
}

proof fn lemma_first_resolved(s: Seq<MatchView>)
    ensures
        -1 <= first_resolved(s) < s.len(),
        first_resolved(s) >= 0 ==> s[first_resolved(s)].past_cause is Some
            && s[first_resolved(s)].past_fix is Some,
        forall|j: int|
            0 <= j < s.len() && (first_resolved(s) == -1 || j < first_resolved(s)) ==> !(
            #[trigger] s[j].past_cause is Some && s[j].past_fix is Some),
    decreases s.len(),
{
    if s.len() > 0 {
        lemma_first_resolved(s.drop_first());
        assert forall|j: int|
            0 < j < s.len() implies #[trigger] s[j] == s.drop_first()[j - 1] by {}
    }
}

/// Writes the next step of a red card.
pub fn suggest_next_step(root: &str, links: &[CausalLink], similar: &[IncidentMatch]) -> (s: String)
    requires
        next_step_ok(links@, similar@.len()),
    ensures
        s@ == spec_next_step(root@, links@, similar@.map_values(|m: IncidentMatch| match_view(m))),
{
    let ghost sv = similar@.map_values(|m: IncidentMatch| match_view(m));
    proof {
        lemma_first_resolved(sv);
    }
    let mut k: usize = 0;
    while k < similar.len() && !(similar[k].past_cause.is_some() && similar[k].past_fix.is_some())
        invariant
            0 <= k <= similar@.len(),
            sv == similar@.map_values(|m: IncidentMatch| match_view(m)),
            -1 <= first_resolved(sv) < sv.len(),
            forall|j: int| 0 <= j < k ==> !(#[trigger] sv[j].past_cause is Some && sv[j].past_fix is Some),
        decreases similar.len() - k,
    {
        assert(sv[k as int] == match_view(similar@[k as int]));
        k += 1;
    }
    let mut v: Vec<char> = Vec::new();
    if k < similar.len() {
        let m = &similar[k];
        assert(sv[k as int] == match_view(*m));
        proof {
            if first_resolved(sv) != k {
                if first_resolved(sv) == -1 || first_resolved(sv) > k {
                    assert(!(sv[k as int].past_cause is Some && sv[k as int].past_fix is Some));
                } else {
                    let f = first_resolved(sv);
                    assert(sv[f].past_cause is Some && sv[f].past_fix is Some);
                }
            }
        }
        append_str(&mut v, "This looks ");
        let p = decimal_of(pct_of(m.similarity_bp));
        append_chars(&mut v, p.as_slice());
        append_str(&mut v, "% similar to a past incident");
        match m.past_resolved_in_minutes {
            Some(mins) => {
                append_str(&mut v, " (fixed in ");
                let d = signed_decimal_of(mins);
                append_chars(&mut v, d.as_slice());
                append_str(&mut v, " min last time)");
            },
            None => {},
        }
        append_str(&mut v, ". Last time the cause was: \"");
        match &m.past_cause {
            Some(c) => append_str(&mut v, c.as_str()),
            None => {},
        }
        append_str(&mut v, "\". The fix was: \"");
        match &m.past_fix {
            Some(f) => append_str(&mut v, f.as_str()),
            None => {},
        }
        append_str(&mut v, "\". Start by verifying that.");
        return string_from(v.as_slice());
    }
    proof {
        if first_resolved(sv) >= 0 {
            let f = first_resolved(sv);
            assert(sv[f].past_cause is Some && sv[f].past_fix is Some);
        }
    }
    if similar.len() > 0 {
        assert(sv[0] == match_view(similar@[0]));
        append_str(&mut v, "This looks ");
        let p = decimal_of(pct_of(similar[0].similarity_bp));
        append_chars(&mut v, p.as_slice());
        append_str(
            &mut v,
            "% similar to a past incident \u{2014} but no one ever filled in what fixed it. Check ",
        );
        append_str(&mut v, root);
        append_str(
            &mut v,
            " health and recent deploys; please record a resolution card when you fix this one so the next on-call has a head start.",
        );
        return string_from(v.as_slice());
    }
    let sample = if links.len() > 0 {
        trim_sample(links[0].sample.as_str())
    } else {
        string_from(v.as_slice())
    };
    append_str(&mut v, "Check ");
    append_str(&mut v, root);
    if sample.as_str().unicode_len() == 0 {
        append_str(
            &mut v,
            " health, recent deploys, and dependency status. This is the first time Aegis has seen this incident shape, so please record a resolution card when you fix it.",
        );
    } else {
        append_str(&mut v, " health and recent deploys. Earliest signal: ");
        append_str(&mut v, sample.as_str());
        append_str(
            &mut v,
            ". This is the first time Aegis has seen this incident shape; please record a resolution card when you fix it.",
        );
    }
    string_from(v.as_slice())
}

// ---------------------------------------------------------------------------
// Engine
// ---------------------------------------------------------------------------

/// Knobs of the decision engine.
#[derive(Clone, Copy, Debug, PartialEq, Eq, Structural)]
pub struct DecisionParams {
    /// How many similar past incidents to surface alongside the headline.
    pub max_similar_incidents: usize,
    /// Minimum similarity (basis points) before a past incident is shown.
    pub min_similarity_bp: u32,
    /// Idle period before the state downshifts back to green: long enough
    /// that a momentary lull doesn't flap the badge.
    pub idle_to_green_secs: u64,
}

impl Default for DecisionParams {
    fn default() -> (p: Self)
        ensures
            p.max_similar_incidents == 3,
            p.min_similarity_bp == 2500,
            p.idle_to_green_secs == 300,
    {
        DecisionParams { max_similar_incidents: 3, min_similarity_bp: 2500, idle_to_green_secs: 300 }
    }
}

/// Why no card could be written.
#[derive(Clone, Copy, Debug, PartialEq, Eq, Structural)]
pub enum DecisionError {
    /// `on_chain` was handed an event that is not a `CausalChain`.
    NotACausalChain,
}

/// `e` is a decision card with exactly these fields.
pub open spec fn is_card(
    e: ProcessedEvent,
    decision_id: Seq<char>,
    ts_ms: u64,
    state: HealthState,
    chain_id: Option<Seq<char>>,
    root: Option<Seq<char>>,
    headline: Seq<char>,
    next_step: Seq<char>,
    impact: Option<Seq<char>>,
    similar: Seq<MatchView>,
) -> bool {
    match e {
        ProcessedEvent::DecisionCard {
            decision_id: d,
            ts_ms: t,
            state: st,
            chain_id: c,
            root_cause_service: r,
            headline: h,
            suggested_next_step: n,
            business_impact: b,
            similar_incidents: s,
        } => {
            &&& d@ == decision_id
            &&& t == ts_ms
            &&& st == state
            &&& opt_chars(c) == chain_id
            &&& opt_chars(r) == root
            &&& h@ == headline
            &&& n@ == next_step
            &&& opt_chars(b) == impact
            &&& s@.map_values(|m: IncidentMatch| match_view(m)) == similar
        },
        _ => false,
    }
}

/// The matches a chain gets from the memory table.
pub open spec fn spec_similar(
    chain: ProcessedEvent,
    memory: Seq<FingerprintView>,
    params: DecisionParams,
) -> Seq<MatchView> {
    spec_search(memory, chain, params.max_similar_incidents as nat, params.min_similarity_bp)
}

/// The red card written for a chain, dated at the chain's last line.
pub open spec fn is_red_card(
    e: ProcessedEvent,
    chain: ProcessedEvent,
    memory: Seq<FingerprintView>,
    catalog: TableView,
    params: DecisionParams,
    decision_id: Seq<char>,
) -> bool {
    match chain {
        ProcessedEvent::CausalChain {
            chain_id,
            root_cause_service,
            confidence_bp,
            chain: links,
            last_seen_ms,
            ..
        } => {
            let similar = spec_similar(chain, memory, params);
            is_card(
                e,
                decision_id,
                last_seen_ms,
                HealthState::Red,
                Some(chain_id@),
                Some(root_cause_service@),
                spec_headline(root_cause_service@, links@, confidence_bp),
                spec_next_step(root_cause_service@, links@, similar),
                spec_lookup(catalog, root_cause_service@),
                similar,
            )
        },
        _ => false,
    }
}

/// The first-time copy of a chain's card can quote its earliest signal.
pub open spec fn chain_card_ok(
    chain: ProcessedEvent,
    memory: Seq<FingerprintView>,
    params: DecisionParams,
) -> bool {
    match chain {
        ProcessedEvent::CausalChain { chain: links, .. } => next_step_ok(
            links@,
            spec_similar(chain, memory, params).len(),
        ),
        _ => true,
    }
}

/// The orange card for a single misbehaving service.
pub open spec fn is_orange_card(
    e: ProcessedEvent,
    service: Seq<char>,
    sample: Seq<char>,
    catalog: TableView,
    decision_id: Seq<char>,
    now_ms: u64,
) -> bool {
    is_card(
        e,
        decision_id,
        now_ms,
        HealthState::Orange,
        None,
        Some(service),
        service + " is misbehaving. No multi-service chain detected yet, but volume is rising."@,
        "Check "@ + service
            + " health and recent deploys. Aegis will escalate to red if other services start failing.\nSample: "@
            + spec_trim_sample(sample),
        spec_lookup(catalog, service),
        Seq::empty(),
    )
}

/// The neutral green card.
pub open spec fn is_green_card(e: ProcessedEvent, decision_id: Seq<char>, now_ms: u64) -> bool {
    is_card(
        e,
        decision_id,
        now_ms,
        HealthState::Green,
        None,
        None,
        "All quiet. Dedup is working and no causal chains are active."@,
        "Nothing to do. Aegis is watching for first-fire patterns."@,
        None,
        Seq::empty(),
    )
}

/// Writes decision cards from the memory table and the service catalogue.
pub struct DecisionEngine {
    params: DecisionParams,
    store: Store,
    catalog: ServiceCatalog,
}

fn own_opt(o: Option<&str>) -> (r: Option<String>)
    ensures
        opt_chars(r) == (match o {
            Some(s) => Some(s@),
            None => None::<Seq<char>>,
        }),
{
    match o {
        Some(s) => Some(s.to_string()),
        None => None,
    }
}

impl DecisionEngine {
    pub closed spec fn params(&self) -> DecisionParams {
        self.params
    }

    /// The memory table the engine searches.
    pub closed spec fn memory(&self) -> Seq<FingerprintView> {
        self.store@
    }

    pub closed spec fn catalog(&self) -> TableView {
        self.catalog@
    }

    pub closed spec fn wf(&self) -> bool {
        self.store.wf() && self.catalog.wf()
    }

    pub fn new(params: DecisionParams, store: Store, catalog: ServiceCatalog) -> (e: Self)
        requires
            store.wf(),
            catalog.wf(),
        ensures
            e.wf(),
            e.params() == params,
            e.memory() == store@,
            e.catalog() == catalog@,
    {
        DecisionEngine { params, store, catalog }
    }

    /// The memory table.
    pub fn store(&self) -> (s: &Store)
        ensures
            s@ == self.memory(),
            self.wf() ==> s.wf(),
    {
        &self.store
    }

    /// Synthesize a red card from a freshly fired causal chain, then
    /// remember the chain as a fingerprint under `incident_id`. The card's
    /// similar incidents are searched before the chain is remembered.
    /// Anything but a `CausalChain` is refused and changes nothing.
    pub fn on_chain(&mut self, chain: &ProcessedEvent, incident_id: String, decision_id: String) -> (r:
        Result<ProcessedEvent, DecisionError>)
        requires
            old(self).wf(),
            chain_card_ok(*chain, old(self).memory(), old(self).params()),
        ensures
            final(self).wf(),
            final(self).params() == old(self).params(),
            final(self).catalog() == old(self).catalog(),
            chain is CausalChain ==> {
                &&& r is Ok
                &&& is_red_card(
                    r->Ok_0,
                    *chain,
                    old(self).memory(),
                    old(self).catalog(),
                    old(self).params(),
                    decision_id@,
                )
                &&& final(self).memory() == memory_after(old(self).memory(), *chain, incident_id@)
            },
            !(chain is CausalChain) ==> r == Err::<ProcessedEvent, DecisionError>(
                DecisionError::NotACausalChain,
            ) && final(self).memory() == old(self).memory(),
    {
        match chain {
            ProcessedEvent::CausalChain {
                chain_id,
                root_cause_service,
                confidence_bp,
                chain: links,
                last_seen_ms,
                ..
            } => {
                let similar = self.store.search_similar(
                    chain,
                    self.params.max_similar_incidents,
                    self.params.min_similarity_bp,
                );
                let headline = headline_for_chain(
                    root_cause_service.as_str(),
                    links.as_slice(),
                    *confidence_bp,
                );
                let next = suggest_next_step(
                    root_cause_service.as_str(),
                    links.as_slice(),
                    similar.as_slice(),
                );
                let impact = own_opt(self.catalog.lookup(root_cause_service.as_str()));
                let card = ProcessedEvent::DecisionCard {
                    decision_id,
                    ts_ms: *last_seen_ms,
                    state: HealthState::Red,
                    chain_id: Some(chain_id.clone()),
                    root_cause_service: Some(root_cause_service.clone()),
                    headline,
                    suggested_next_step: next,
                    business_impact: impact,
                    similar_incidents: similar,
                };
                let _ = self.store.record_chain(chain, incident_id);
                Ok(card)
            },
            _ => Err(DecisionError::NotACausalChain),
        }
    }

    /// Synthesize an orange card for a single service that is misbehaving
    /// but hasn't (yet) dragged others down with it.
    pub fn on_orange(&self, service: &str, sample: &str, decision_id: String, now_ms: u64) -> (e:
        ProcessedEvent)
        requires
            sample_cut_ok(sample@),
        ensures
            is_orange_card(e, service@, sample@, self.catalog(), decision_id@, now_ms),
    {
        let mut h: Vec<char> = Vec::new();
        append_str(&mut h, service);
        append_str(
            &mut h,
            " is misbehaving. No multi-service chain detected yet, but volume is rising.",
        );
        let mut n: Vec<char> = Vec::new();
        append_str(&mut n, "Check ");
        append_str(&mut n, service);
        append_str(
            &mut n,
            " health and recent deploys. Aegis will escalate to red if other services start failing.\nSample: ",
        );
        let t = trim_sample(sample);
        append_str(&mut n, t.as_str());
        let impact = own_opt(self.catalog.lookup(service));
        let similar: Vec<IncidentMatch> = Vec::new();
        assert(similar@.map_values(|m: IncidentMatch| match_view(m)) =~= Seq::<MatchView>::empty());
        ProcessedEvent::DecisionCard {
            decision_id,
            ts_ms: now_ms,
            state: HealthState::Orange,
            chain_id: None,
            root_cause_service: Some(service.to_string()),
            headline: string_from(h.as_slice()),
            suggested_next_step: string_from(n.as_slice()),
            business_impact: impact,
            similar_incidents: similar,
        }
    }

    /// The card for a state that has been clean for a while.
    pub fn green_card(&self, decision_id: String, now_ms: u64) -> (e: ProcessedEvent)
        ensures
            is_green_card(e, decision_id@, now_ms),
    {
        let similar: Vec<IncidentMatch> = Vec::new();
        assert(similar@.map_values(|m: IncidentMatch| match_view(m)) =~= Seq::<MatchView>::empty());
        ProcessedEvent::DecisionCard {
            decision_id,
            ts_ms: now_ms,
            state: HealthState::Green,
            chain_id: None,
            root_cause_service: None,
            headline: "All quiet. Dedup is working and no causal chains are active.".to_string(),
            suggested_next_step: "Nothing to do. Aegis is watching for first-fire patterns.".to_string(),
            business_impact: None,
            similar_incidents: similar,
        }
    }
}

// ---------------------------------------------------------------------------
// Pipeline stage
// ---------------------------------------------------------------------------

/// `e` is the `IncidentMemory` event that reports fingerprint `f`.
pub open spec fn is_memory_event(e: ProcessedEvent, f: FingerprintView) -> bool {
    match e {
        ProcessedEvent::IncidentMemory {
            incident_id,
            chain_id,
            ts_ms,
            root_cause_service,
            services,
            cause,
            fix,
            resolved_at_ms,
            resolved_in_minutes,
        } => {
            &&& incident_id@ == f.id
            &&& chain_id@ == f.chain_id
            &&& ts_ms == f.ts_ms
            &&& root_cause_service@ == f.root_cause_service
            &&& names(services@) == f.services
            &&& opt_chars(cause) == f.cause
            &&& opt_chars(fix) == f.fix
            &&& resolved_at_ms == f.resolved_at_ms
            &&& resolved_in_minutes == f.resolved_in_minutes
        },
        _ => false,
    }
}

/// The memory table once a chain is remembered under `incident_id`.
pub open spec fn memory_after(
    memory: Seq<FingerprintView>,
    chain: ProcessedEvent,
    incident_id: Seq<char>,
) -> Seq<FingerprintView> {
    spec_insert(memory, spec_fingerprint(chain, incident_id))
}

/// The idle period has passed since the last chain (whole seconds, as a
/// monotonic clock's `elapsed` reports them).
pub open spec fn idle_elapsed(last_chain_at_ms: u64, now_mono_ms: u64, idle_secs: u64) -> bool {
    saturating_diff(now_mono_ms, last_chain_at_ms) / 1000 >= idle_secs
}

/// What the stage sends downstream for one input event, in this order.
pub struct StageOutput {
    /// The newest remembered fingerprint, after a chain.
    pub memory: Option<ProcessedEvent>,
    /// The red card, after a chain; it is also the latest card.
    pub card: Option<ProcessedEvent>,
    /// The input event itself, always forwarded untouched.
    pub forward: ProcessedEvent,
}

/// The decision stage of the pipeline: every chain entering it is
/// remembered, reported and answered with a card; after a quiet period a
/// green card follows. The caller feeds it events and periodic sweeps.
pub struct DecisionStage {
    engine: DecisionEngine,
    last_chain_at_ms: Option<u64>,
}

impl DecisionStage {
    pub closed spec fn engine_view(&self) -> DecisionEngine {
        self.engine
    }

    /// Monotonic time of the last chain, while the state is not green.
    pub closed spec fn last_chain_at(&self) -> Option<u64> {
        self.last_chain_at_ms
    }

    pub closed spec fn wf(&self) -> bool {
        self.engine.wf()
    }

    pub fn new(engine: DecisionEngine) -> (s: Self)
        requires
            engine.wf(),
        ensures
            s.wf(),
            s.engine_view() == engine,
            s.last_chain_at() is None,
    {
        DecisionStage { engine, last_chain_at_ms: None }
    }

    pub fn engine(&self) -> (e: &DecisionEngine)
        ensures
            *e == self.engine_view(),
    {
        &self.engine
    }

    /// Whether [`on_event`](Self::on_event) may take `ev`: a chain whose
    /// card would quote its earliest signal needs that sample to cut
    /// cleanly.
    pub fn card_ok(&self, ev: &ProcessedEvent) -> (b: bool)
        requires
            self.wf(),
        ensures
            b == chain_card_ok(*ev, self.engine_view().memory(), self.engine_view().params()),
    {
        match ev {
            ProcessedEvent::CausalChain { chain: links, .. } => {
                let similar = self.engine.store.search_similar(
                    ev,
                    self.engine.params.max_similar_incidents,
                    self.engine.params.min_similarity_bp,
                );
                if similar.len() == 0 && links.len() > 0 {
                    sample_cuts_cleanly(links[0].sample.as_str())
                } else {
                    true
                }
            },
            _ => true,
        }
    }

    /// Handle one event. A `CausalChain` is answered with a red card (its
    /// similar incidents searched in the memory as it was), remembered under
    /// `incident_id`, and the fingerprint just written is reported; every
    /// event is forwarded.
    pub fn on_event(
        &mut self,
        ev: ProcessedEvent,
        incident_id: String,
        decision_id: String,
        now_mono_ms: u64,
    ) -> (out: StageOutput)
        requires
            old(self).wf(),
            chain_card_ok(ev, old(self).engine_view().memory(), old(self).engine_view().params()),
        ensures
            final(self).wf(),
            final(self).engine_view().params() == old(self).engine_view().params(),
            final(self).engine_view().catalog() == old(self).engine_view().catalog(),
            out.forward == ev,
            ev is CausalChain ==> {
                let mem = memory_after(old(self).engine_view().memory(), ev, incident_id@);
                &&& final(self).engine_view().memory() == mem
                &&& final(self).last_chain_at() == Some(now_mono_ms)
                &&& spec_get(mem, incident_id@) == Some(spec_fingerprint(ev, incident_id@))
                &&& out.memory is Some
                &&& is_memory_event(out.memory->0, spec_fingerprint(ev, incident_id@))
                &&& out.card is Some
                &&& is_red_card(
                    out.card->0,
                    ev,
                    old(self).engine_view().memory(),
                    old(self).engine_view().catalog(),
                    old(self).engine_view().params(),
                    decision_id@,
                )
            },
            !(ev is CausalChain) ==> {
                &&& final(self).engine_view().memory() == old(self).engine_view().memory()
                &&& final(self).last_chain_at() == old(self).last_chain_at()
                &&& out.memory is None
                &&& out.card is None
            },
    {
        if matches!(ev, ProcessedEvent::CausalChain { .. }) {
            let id_copy = incident_id.clone();
            proof {
                self.engine.store.lemma_wf_ids();
            }
            let card = self.engine.on_chain(&ev, incident_id, decision_id);
            let ghost mem = self.engine.store@;
            proof {
                law_get_after_insert(
                    old(self).engine_view().memory(),
                    spec_fingerprint(ev, id_copy@),
                    id_copy@,
                );
                assert(mem == memory_after(old(self).engine_view().memory(), ev, id_copy@));
            }
            let written = self.engine.store.get(id_copy.as_str()).unwrap();
            let memory = written.to_event();
            self.last_chain_at_ms = Some(now_mono_ms);
            match card {
                Ok(c) => StageOutput { memory: Some(memory), card: Some(c), forward: ev },
                Err(_) => StageOutput { memory: Some(memory), card: None, forward: ev },
            }
        } else {
            StageOutput { memory: None, card: None, forward: ev }
        }
    }

    /// Attach a resolution card to a remembered incident (see
    /// [`Store::resolve`](crate::incident_memory::Store::resolve)); the
    /// stage's state is otherwise unchanged.
    pub fn resolve(&mut self, incident_id: &str, card: ResolutionCard, now_ms: u64) -> (r: Option<
        Fingerprint,
    >)
        requires
            old(self).wf(),
        ensures
            final(self).wf(),
            final(self).engine_view().params() == old(self).engine_view().params(),
            final(self).engine_view().catalog() == old(self).engine_view().catalog(),
            final(self).last_chain_at() == old(self).last_chain_at(),
            (match spec_get(old(self).engine_view().memory(), incident_id@) {
                Some(f) => {
                    let g = spec_resolved(f, card.cause@, card.fix@, now_ms);
                    &&& r is Some
                    &&& fp_view(r->0) == g
                    &&& final(self).engine_view().memory() == spec_insert(
                        old(self).engine_view().memory(),
                        g,
                    )
                },
                None => r is None && final(self).engine_view().memory() == old(
                    self,
                ).engine_view().memory(),
            }),
    {
        self.engine.store.resolve(incident_id, card, now_ms)
    }

    /// Periodic sweep: once the state has been quiet for the idle period
    /// after a chain, a green card is issued (once).
    pub fn on_sweep(&mut self, decision_id: String, now_ms: u64, now_mono_ms: u64) -> (card: Option<
        ProcessedEvent,
    >)
        ensures
            final(self).engine_view() == old(self).engine_view(),
            final(self).wf() == old(self).wf(),
            (match old(self).last_chain_at() {
                Some(t) => if idle_elapsed(t, now_mono_ms, old(self).engine_view().params().idle_to_green_secs) {
                    &&& card is Some
                    &&& is_green_card(card->0, decision_id@, now_ms)
                    &&& final(self).last_chain_at() is None
                } else {
                    card is None && final(self).last_chain_at() == old(self).last_chain_at()
                },
                None => card is None && final(self).last_chain_at() is None,
            }),
    {
        match self.last_chain_at_ms {
            Some(t) => {
                let elapsed = if now_mono_ms >= t {
                    now_mono_ms - t
                } else {
                    0
                };
                if elapsed / 1000 >= self.engine.params.idle_to_green_secs {
                    let c = self.engine.green_card(decision_id, now_ms);
                    self.last_chain_at_ms = None;
                    Some(c)
                } else {
                    None
                }
            },
            None => None,
        }
    }
}


/// A known fix comes back: once an incident is resolved, the red card for a
/// later chain that resembles it (another chain) lists that incident with
/// the cause and the fix that were entered, when the memory lies within the
/// search window and the card can hold every candidate.
pub proof fn law_known_fix_resurfaces(
    memory: Seq<FingerprintView>,
    incident_id: Seq<char>,
    cause: Seq<char>,
    fix: Seq<char>,
    resolved_at_ms: u64,
    chain: ProcessedEvent,
    catalog: TableView,
    params: DecisionParams,
    decision_id: Seq<char>,
    card: ProcessedEvent,
)
    requires
        distinct_ids(memory),
        spec_get(memory, incident_id) is Some,
        memory.len() <= SEARCH_WINDOW,
        memory.len() <= params.max_similar_incidents,
        chain is CausalChain,
        spec_get(memory, incident_id)->0.chain_id != chain_id_of(chain),
        chain_similarity(chain, spec_get(memory, incident_id)->0) >= params.min_similarity_bp,
        is_red_card(
            card,
            chain,
            spec_insert(
                memory,
                spec_resolved(spec_get(memory, incident_id)->0, cause, fix, resolved_at_ms),
            ),
            catalog,
            params,
            decision_id,
        ),
    ensures
        card matches ProcessedEvent::DecisionCard { similar_incidents, .. } && exists|i: int|
            0 <= i < similar_incidents.len() && #[trigger] match_view(similar_incidents@[i]).incident_id
                == incident_id && match_view(similar_incidents@[i]).past_cause == Some(cause)
                && match_view(similar_incidents@[i]).past_fix == Some(fix),
{
    let f = spec_get(memory, incident_id)->0;
    let g = spec_resolved(f, cause, fix, resolved_at_ms);
    let mem = spec_insert(memory, g);
    lemma_get_member(memory, incident_id);
    law_get_after_insert(memory, g, incident_id);
    assert(spec_get(mem, incident_id) == Some(g));
    assert(mem.len() == memory.len());
    assert(chain_similarity(chain, g) == chain_similarity(chain, f));
    law_search_finds(
        mem,
        incident_id,
        chain,
        params.max_similar_incidents as nat,
        params.min_similarity_bp,
    );
    let similar = spec_similar(chain, mem, params);
    let i = choose|i: int| 0 <= i < similar.len() && similar[i] == crate::incident_memory::to_match(
        chain_similarity(chain, g),
        g,
    );
    match card {
        ProcessedEvent::DecisionCard { similar_incidents, .. } => {
            assert(similar_incidents@.map_values(|m: IncidentMatch| match_view(m)) == similar);
            assert(match_view(similar_incidents@[i]) == similar[i]);
            assert(g.id == incident_id && g.cause == Some(cause) && g.fix == Some(fix));
            assert(i < similar_incidents.len());
            assert(match_view(similar_incidents@[i]).incident_id == incident_id);
        },
        _ => {},
    }
}

/// A recorded fix is preferred: when some match has a cause and a fix, the
/// next step quotes the first such match (best first), passing over better
/// matches that were never resolved.
pub proof fn law_next_step_quotes_first_fix(
    root: Seq<char>,
    links: Seq<CausalLink>,
    similar: Seq<MatchView>,
    k: int,
)
    requires
        0 <= k < similar.len(),
        similar[k].past_cause is Some && similar[k].past_fix is Some,
        forall|j: int| 0 <= j < k ==> !(#[trigger] similar[j].past_cause is Some && similar[j].past_fix is Some),
    ensures
        spec_next_step(root, links, similar) == fix_quote(similar[k]),
{
    lemma_first_resolved(similar);
    let r = first_resolved(similar);
    if r != k {
        if r == -1 || r > k {
            assert(!(similar[k].past_cause is Some && similar[k].past_fix is Some));
        } else {
            assert(!(similar[r].past_cause is Some && similar[r].past_fix is Some));
        }
    }
}

} // verus!
