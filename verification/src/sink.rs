//! Human-readable rendering of processed events.
//!
//! In demo mode (no Splunk configured) every event is printed as one short
//! line, so an operator can check the pipeline at a glance without leaving
//! the terminal. Durations are printed in seconds: one decimal (tenths
//! rounded half up), or whole seconds for a silence.

use vstd::prelude::*;
use crate::decision::pct;
use crate::event::{health_name, CausalLink, ProcessedEvent};
use crate::text::{
    append_chars, append_str, byte_len, byte_prefix_len, bytes_exceed, chars_of, decimal, decimal_of,
    fit_from, prefix_bytes, string_from,
};

verus! {

pub open spec fn spaces(n: nat) -> Seq<char> {
    Seq::new(n, |i: int| ' ')
}

/// `s` left-aligned in a field of `width` characters (`{:<width}`).
pub open spec fn pad_right(s: Seq<char>, width: nat) -> Seq<char> {
    if s.len() < width {
        s + spaces((width - s.len()) as nat)
    } else {
        s
    }
}

/// `s` right-aligned in a field of `width` characters (`{:>width}`).
pub open spec fn pad_left(s: Seq<char>, width: nat) -> Seq<char> {
    if s.len() < width {
        spaces((width - s.len()) as nat) + s
    } else {
        s
    }
}

/// A duration in seconds with one decimal.
pub open spec fn secs_1dp(ms: u64) -> Seq<char> {
    let t = ((ms + 50) / 100) as nat;
    decimal(t / 10) + "."@ + decimal(t % 10)
}

/// A duration in whole seconds.
pub open spec fn secs_0dp(ms: u64) -> Seq<char> {
    decimal(((ms + 500) / 1000) as nat)
}

/// The first 12 bytes of a signature (all of it when shorter).
pub open spec fn spec_short_sig(sig: Seq<char>) -> Seq<char> {
    if byte_len(sig) <= 12 {
        sig
    } else {
        sig.take(fit_from(sig, 12, 0) as int)
    }
}

/// Cutting at byte 12 falls between two characters.
pub open spec fn short_sig_ok(sig: Seq<char>) -> bool {
    byte_len(sig) <= 12 || byte_len(sig.take(fit_from(sig, 12, 0) as int)) == 12
}

/// `service (+1.5s)` for a link of a chain.
pub open spec fn link_text(l: CausalLink) -> Seq<char> {
    l.service@ + " (+"@ + secs_1dp(l.ts_offset_ms) + "s)"@
}

/// The links of a chain joined with arrows.
pub open spec fn chain_text(links: Seq<CausalLink>) -> Seq<char>
    decreases links.len(),
{
    if links.len() == 0 {
        Seq::empty()
    } else if links.len() == 1 {
        link_text(links[0])
    } else {
        chain_text(links.drop_last()) + " \u{2192} "@ + link_text(links.last())
    }
}

/// The line printed for an event.
pub open spec fn spec_format_event(ev: ProcessedEvent) -> Seq<char> {
    match ev {
        ProcessedEvent::FirstOccurrence { signature, line, service, .. } => "[FIRST   svc="@
            + pad_right(service@, 14) + " sig="@ + spec_short_sig(signature@) + "] "@ + line@,
        ProcessedEvent::Collapsed { signature, count, window_ms, sample, service, .. } => "[DEDUP   svc="@
            + pad_right(service@, 14) + " sig="@ + spec_short_sig(signature@) + " x"@ + pad_left(
            decimal(count as nat),
            5,
        ) + " in "@ + pad_left(secs_1dp(window_ms), 5) + "s] "@ + sample@,
        ProcessedEvent::Raw { line, service, .. } => "[RAW     svc="@ + pad_right(service@, 14) + "] "@
            + line@,
        ProcessedEvent::Summary { source, window_ms, suppressed_lines, unique_signatures, .. } => "[SUMMARY src="@
            + source@ + " "@ + decimal(unique_signatures as nat) + " sigs in "@ + pad_left(
            secs_1dp(window_ms),
            5,
        ) + "s] suppressed="@ + decimal(suppressed_lines as nat) + " routine lines"@,
        ProcessedEvent::CausalChain { root_cause_service, chain, confidence_bp, .. } => "[CHAIN   root="@
            + root_cause_service@ + " conf="@ + decimal(pct(confidence_bp)) + "%] "@ + chain_text(
            chain@,
        ),
        ProcessedEvent::DecisionCard { state, root_cause_service, headline, similar_incidents, .. } => "[DECIDE  state="@
            + health_name(state) + " root="@ + (match root_cause_service {
            Some(r) => r@,
            None => "-"@,
        }) + "] "@ + headline@ + " ("@ + decimal(similar_incidents@.len()) + " similar past incident"@
            + (if similar_incidents@.len() == 1 {
            Seq::empty()
        } else {
            "s"@
        }) + ")"@,
        ProcessedEvent::IncidentMemory { incident_id, root_cause_service, cause, .. } => "[MEMORY  id="@
            + incident_id@ + " root="@ + root_cause_service@ + "] "@ + (match cause {
            Some(c) => c@,
            None => "(open \u{2014} no resolution yet)"@,
        }),
        ProcessedEvent::ServiceSilent { service, silence_ms, last_sample, .. } => "[SILENT  svc="@
            + pad_right(service@, 14) + " quiet="@ + pad_left(secs_0dp(silence_ms), 5) + "s] last="@
            + (match last_sample {
            Some(s) => s@,
            None => "?"@,
        }),
    }
}

/// An event can be rendered: its signature, if it has one, cuts cleanly.
pub open spec fn format_ok(ev: ProcessedEvent) -> bool {
    match ev {
        ProcessedEvent::FirstOccurrence { signature, .. } => short_sig_ok(signature@),
        ProcessedEvent::Collapsed { signature, .. } => short_sig_ok(signature@),
        _ => true,
    }
}

fn push_spaces(v: &mut Vec<char>, n: usize)
    ensures
        final(v)@ == old(v)@ + spaces(n as nat),
{
    let mut i: usize = 0;
    while i < n
        invariant
            0 <= i <= n,
            v@ == old(v)@ + spaces(i as nat),
        decreases n - i,
    {
        v.push(' ');
        i += 1;
        assert(v@ =~= old(v)@ + spaces(i as nat));
    }
}

fn push_pad_right(v: &mut Vec<char>, s: &str, width: usize)
    ensures
        final(v)@ == old(v)@ + pad_right(s@, width as nat),
{
    let c = chars_of(s);
    append_chars(v, c.as_slice());
    if c.len() < width {
        push_spaces(v, width - c.len());
    }
    assert(v@ =~= old(v)@ + pad_right(s@, width as nat));
}

fn push_pad_left(v: &mut Vec<char>, c: &[char], width: usize)
    ensures
        final(v)@ == old(v)@ + pad_left(c@, width as nat),
{
    if c.len() < width {
        push_spaces(v, width - c.len());
    }
    append_chars(v, c);
    assert(v@ =~= old(v)@ + pad_left(c@, width as nat));
}

fn secs_1dp_of(ms: u64) -> (r: Vec<char>)
    ensures
        r@ == secs_1dp(ms),
{
    let t: u64 = ms / 100 + if ms % 100 >= 50 {
        1
    } else {
        0
    };
    assert(t == (ms + 50) / 100);
    let mut r = decimal_of(t / 10);
    append_str(&mut r, ".");
    let f = decimal_of(t % 10);
    append_chars(&mut r, f.as_slice());
    r
}

fn secs_0dp_of(ms: u64) -> (r: Vec<char>)
    ensures
        r@ == secs_0dp(ms),
{
    let t: u64 = ms / 1000 + if ms % 1000 >= 500 {
        1
    } else {
        0
    };
    assert(t == (ms + 500) / 1000);
    decimal_of(t)
}

/// The first 12 bytes of a signature.
pub fn short_sig(sig: &str) -> (r: String)
    requires
        short_sig_ok(sig@),
    ensures
        r@ == spec_short_sig(sig@),
{
    let c = chars_of(sig);
    let k = byte_prefix_len(c.as_slice(), 12);
    let mut total: usize = 0;
    let mut j: usize = 0;
    let mut over = false;
    while j < c.len()
        invariant
            0 <= j <= c@.len(),
            !over ==> total == byte_len(c@.take(j as int)) && total <= 12,
            over ==> byte_len(c@) > 12,
        decreases c.len() - j,
    {
        if !over {
            proof {
                crate::text::lemma_byte_len_step(c@, j as int);
            }
            let w = crate::text::utf8_width_of(c[j]);
            if total + w > 12 {
                over = true;
                proof {
                    lemma_byte_len_prefix_le(c@, j + 1);
                }
            } else {
                total = total + w;
            }
        }
        j += 1;
    }
    assert(c@.take(c@.len() as int) =~= c@);
    if over {
        let mut out: Vec<char> = Vec::new();
        let mut m: usize = 0;
        while m < k
            invariant
                0 <= m <= k <= c@.len(),
                out@ == c@.take(m as int),
            decreases k - m,
        {
            out.push(c[m]);
            m += 1;
            assert(out@ =~= c@.take(m as int));
        }
        string_from(out.as_slice())
    } else {
        string_from(c.as_slice())
    }
}

/// A prefix is no longer, in bytes, than the whole.
proof fn lemma_byte_len_prefix_le(s: Seq<char>, k: int)
    requires
        0 <= k <= s.len(),
    ensures
        byte_len(s.take(k)) <= byte_len(s),
    decreases s.len() - k,
{
    if k < s.len() {
        crate::text::lemma_byte_len_step(s, k);
        lemma_byte_len_prefix_le(s, k + 1);
    } else {
        assert(s.take(k) =~= s);
    }
}

fn push_chain(v: &mut Vec<char>, links: &Vec<CausalLink>)
    ensures
        final(v)@ == old(v)@ + chain_text(links@),
{
    let mut i: usize = 0;
    while i < links.len()
        invariant
            0 <= i <= links@.len(),
            v@ == old(v)@ + chain_text(links@.take(i as int)),
        decreases links.len() - i,
    {
        if i > 0 {
            append_str(v, " \u{2192} ");
        }
        let l = &links[i];
        append_str(v, l.service.as_str());
        append_str(v, " (+");
        let s = secs_1dp_of(l.ts_offset_ms);
        append_chars(v, s.as_slice());
        append_str(v, "s)");
        proof {
            let t = links@.take(i + 1);
            assert(t.drop_last() =~= links@.take(i as int));
            assert(t.last() == links@[i as int]);
            if i == 0 {
                assert(t[0] == links@[0]);
            }
        }
        i += 1;
        assert(v@ =~= old(v)@ + chain_text(links@.take(i as int)));
    }
    assert(links@.take(links@.len() as int) =~= links@);
}

/// The line printed for an event in demo mode.
pub fn format_event(ev: &ProcessedEvent) -> (r: String)
    requires
        format_ok(*ev),
    ensures
        r@ == spec_format_event(*ev),
{
    let mut v: Vec<char> = Vec::new();
    match ev {
        ProcessedEvent::FirstOccurrence { signature, line, service, .. } => {
            append_str(&mut v, "[FIRST   svc=");
            push_pad_right(&mut v, service.as_str(), 14);
            append_str(&mut v, " sig=");
            let s = short_sig(signature.as_str());
            append_str(&mut v, s.as_str());
            append_str(&mut v, "] ");
            append_str(&mut v, line.as_str());
        },
        ProcessedEvent::Collapsed { signature, count, window_ms, sample, service, .. } => {
            append_str(&mut v, "[DEDUP   svc=");
            push_pad_right(&mut v, service.as_str(), 14);
            append_str(&mut v, " sig=");
            let s = short_sig(signature.as_str());
            append_str(&mut v, s.as_str());
            append_str(&mut v, " x");
            let c = decimal_of(*count);
            push_pad_left(&mut v, c.as_slice(), 5);
            append_str(&mut v, " in ");
            let w = secs_1dp_of(*window_ms);
            push_pad_left(&mut v, w.as_slice(), 5);
            append_str(&mut v, "s] ");
            append_str(&mut v, sample.as_str());
        },
        ProcessedEvent::Raw { line, service, .. } => {
            append_str(&mut v, "[RAW     svc=");
            push_pad_right(&mut v, service.as_str(), 14);
            append_str(&mut v, "] ");
            append_str(&mut v, line.as_str());
        },
        ProcessedEvent::Summary { source, window_ms, suppressed_lines, unique_signatures, .. } => {
            append_str(&mut v, "[SUMMARY src=");
            append_str(&mut v, source.as_str());
            append_str(&mut v, " ");
            let u = decimal_of(*unique_signatures);
            append_chars(&mut v, u.as_slice());
            append_str(&mut v, " sigs in ");
            let w = secs_1dp_of(*window_ms);
            push_pad_left(&mut v, w.as_slice(), 5);
            append_str(&mut v, "s] suppressed=");
            let n = decimal_of(*suppressed_lines);
            append_chars(&mut v, n.as_slice());
            append_str(&mut v, " routine lines");
        },
        ProcessedEvent::CausalChain { root_cause_service, chain, confidence_bp, .. } => {
            append_str(&mut v, "[CHAIN   root=");
            append_str(&mut v, root_cause_service.as_str());
            append_str(&mut v, " conf=");
            let p = decimal_of(((*confidence_bp as u64) + 50) / 100);
            append_chars(&mut v, p.as_slice());
            append_str(&mut v, "%] ");
            push_chain(&mut v, chain);
        },
        ProcessedEvent::DecisionCard { state, root_cause_service, headline, similar_incidents, .. } => {
            append_str(&mut v, "[DECIDE  state=");
            append_str(&mut v, state.as_str());
            append_str(&mut v, " root=");
            match root_cause_service {
                Some(r) => append_str(&mut v, r.as_str()),
                None => append_str(&mut v, "-"),
            }
            append_str(&mut v, "] ");
            append_str(&mut v, headline.as_str());
            append_str(&mut v, " (");
            let n = decimal_of(similar_incidents.len() as u64);
            append_chars(&mut v, n.as_slice());
            append_str(&mut v, " similar past incident");
            if similar_incidents.len() != 1 {
                append_str(&mut v, "s");
            }
            append_str(&mut v, ")");
        },
        ProcessedEvent::IncidentMemory { incident_id, root_cause_service, cause, .. } => {
            append_str(&mut v, "[MEMORY  id=");
            append_str(&mut v, incident_id.as_str());
            append_str(&mut v, " root=");
            append_str(&mut v, root_cause_service.as_str());
            append_str(&mut v, "] ");
            match cause {
                Some(c) => append_str(&mut v, c.as_str()),
                None => append_str(&mut v, "(open \u{2014} no resolution yet)"),
            }
        },
        ProcessedEvent::ServiceSilent { service, silence_ms, last_sample, .. } => {
            append_str(&mut v, "[SILENT  svc=");
            push_pad_right(&mut v, service.as_str(), 14);
            append_str(&mut v, " quiet=");
            let q = secs_0dp_of(*silence_ms);
            push_pad_left(&mut v, q.as_slice(), 5);
            append_str(&mut v, "s] last=");
            match last_sample {
                Some(s) => append_str(&mut v, s.as_str()),
                None => append_str(&mut v, "?"),
            }
        },
    }
    proof {
        assert(v@ =~= spec_format_event(*ev));
    }
    string_from(v.as_slice())
}

/// Whether a signature cuts cleanly at byte 12.
pub fn short_sig_cuts_cleanly(sig: &str) -> (b: bool)
    ensures
        b == short_sig_ok(sig@),
{
    let c = chars_of(sig);
    if !bytes_exceed(c.as_slice(), 12) {
        return true;
    }
    let k = byte_prefix_len(c.as_slice(), 12);
    prefix_bytes(c.as_slice(), k, 12) == 12
}

/// Whether [`format_event`] can render `ev`.
pub fn can_format(ev: &ProcessedEvent) -> (b: bool)
    ensures
        b == format_ok(*ev),
{
    match ev {
        ProcessedEvent::FirstOccurrence { signature, .. } => short_sig_cuts_cleanly(signature.as_str()),
        ProcessedEvent::Collapsed { signature, .. } => short_sig_cuts_cleanly(signature.as_str()),
        _ => true,
    }
}

} // verus!
