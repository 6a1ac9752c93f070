//! The control plane's rules: the commands of the REST shim, the parameters
//! of the MCP tools, and the replies both send back. The daemon serves the
//! HTTP and MCP protocols and calls these.

use vstd::prelude::*;
use crate::control::{window_end, Control};
use crate::event::ProcessedEvent;
use crate::incident_memory::Fingerprint;
use crate::text::{append_chars, append_str, decimal, decimal_of, signed_decimal, signed_decimal_of, string_from, trim, trim_chars, chars_of};

verus! {

/// Parameters of the `diagnostic` and `override` tools.
pub struct DurationParams {
    /// How many seconds the mode should remain active.
    pub seconds: u64,
}

/// Parameters of the `replay_raw` tool.
pub struct ReplayParams {
    /// Start of the replay window (unix epoch seconds, inclusive).
    pub from: u64,
    /// End of the replay window (unix epoch seconds, exclusive).
    pub to: u64,
}

/// Parameters of the `recent_incidents` tool.
pub struct IncidentsParams {
    /// Maximum number of recent incidents to return (10 when absent).
    pub limit: Option<i64>,
}

/// Parameters of the `resolve_incident` tool.
pub struct ResolveParams {
    /// The incident id from `recent_incidents` or the decision card.
    pub incident_id: String,
    /// 1–2 sentences explaining the actual root cause.
    pub cause: String,
    /// 1–2 sentences explaining what fixed it.
    pub fix: String,
}

/// Parameters of the `acknowledge` tool.
pub struct AcknowledgeParams {
    /// Free-form identifier for who is taking ownership.
    pub actor: Option<String>,
}

/// A command of the REST shim.
pub enum Command {
    Reset,
    Override { seconds: u64 },
    Diagnostic { seconds: u64 },
    Online,
    Offline,
    Unknown { command: String },
}

/// A timed mode lasts 30 seconds unless told otherwise.
pub open spec fn seconds_or_default(seconds: Option<u64>) -> u64 {
    match seconds {
        Some(s) => s,
        None => 30,
    }
}

/// `c` is the command named `name`.
pub open spec fn is_command(c: Command, name: Seq<char>, seconds: Option<u64>) -> bool {
    if name == "reset"@ {
        c is Reset
    } else if name == "override"@ {
        c == Command::Override { seconds: seconds_or_default(seconds) }
    } else if name == "diagnostic"@ {
        c == Command::Diagnostic { seconds: seconds_or_default(seconds) }
    } else if name == "online"@ {
        c is Online
    } else if name == "offline"@ {
        c is Offline
    } else {
        c matches Command::Unknown { command } && command@ == name
    }
}

/// Read a command by its name.
pub fn parse_command(command: &str, seconds: Option<u64>) -> (c: Command)
    ensures
        is_command(c, command@, seconds),
{
    let s = match seconds {
        Some(x) => x,
        None => 30,
    };
    if crate::text::str_eq(command, "reset") {
        Command::Reset
    } else if crate::text::str_eq(command, "override") {
        Command::Override { seconds: s }
    } else if crate::text::str_eq(command, "diagnostic") {
        Command::Diagnostic { seconds: s }
    } else if crate::text::str_eq(command, "online") {
        Command::Online
    } else if crate::text::str_eq(command, "offline") {
        Command::Offline
    } else {
        Command::Unknown { command: command.to_string() }
    }
}

/// A timed command's window must end within a `u64` of milliseconds.
pub open spec fn command_fits(c: Command, now_ms: u64) -> bool {
    match c {
        Command::Override { seconds } => window_end(now_ms, seconds) <= u64::MAX,
        Command::Diagnostic { seconds } => window_end(now_ms, seconds) <= u64::MAX,
        _ => true,
    }
}

/// Apply a command to the control state at `now_ms` (a reset's queue is
/// cleared by the caller).
pub fn apply_command(control: &mut Control, c: &Command, now_ms: u64)
    requires
        command_fits(*c, now_ms),
    ensures
        (match *c {
            Command::Reset => *final(control) == (Control {
                queue_depth: 0,
                events_in: 0,
                events_out: 0,
                unique_signatures: 0,
                override_until_ms: 0,
                diagnostic_until_ms: 0,
                state: crate::event::HealthState::Green,
                latest_decision: None,
                ..*old(control)
            }),
            Command::Override { seconds } => *final(control) == (Control {
                override_until_ms: window_end(now_ms, seconds) as u64,
                ..*old(control)
            }),
            Command::Diagnostic { seconds } => *final(control) == (Control {
                diagnostic_until_ms: window_end(now_ms, seconds) as u64,
                ..*old(control)
            }),
            Command::Online => *final(control) == (Control { online: true, ..*old(control) }),
            Command::Offline => *final(control) == (Control { online: false, ..*old(control) }),
            Command::Unknown { .. } => *final(control) == *old(control),
        }),
{
    match c {
        Command::Reset => control.reset(),
        Command::Override { seconds } => control.enable_override(*seconds, now_ms),
        Command::Diagnostic { seconds } => control.enable_diagnostic(*seconds, now_ms),
        Command::Online => control.set_online(true),
        Command::Offline => control.set_online(false),
        Command::Unknown { .. } => {},
    }
}

/// How the queue fared when a reset asked for it to be cleared.
pub enum QueueClear {
    /// No queue is attached.
    NotAttached,
    Cleared,
    /// Clearing failed with this message.
    Failed(String),
}

/// The REST shim's reply.
pub struct CommandResponse {
    pub ok: bool,
    pub message: String,
}

/// The reply to a command.
pub open spec fn spec_command_reply(c: Command, q: QueueClear) -> (bool, Seq<char>) {
    match c {
        Command::Reset => match q {
            QueueClear::NotAttached => (true, "counters cleared (no queue attached)"@),
            QueueClear::Cleared => (true, "counters and queue cleared"@),
            QueueClear::Failed(e) => (false, "counters cleared, queue clear failed: "@ + e@),
        },
        Command::Override { seconds } => (
            true,
            "override raw passthrough enabled for "@ + decimal(seconds as nat) + "s"@,
        ),
        Command::Diagnostic { seconds } => (
            true,
            "diagnostic tracing enabled for "@ + decimal(seconds as nat) + "s"@,
        ),
        Command::Online => (true, "marked online"@),
        Command::Offline => (true, "marked offline"@),
        Command::Unknown { command } => (false, "unknown command: "@ + command@),
    }
}

/// Reply to a command (for a reset, after the queue was dealt with).
pub fn command_reply(c: &Command, q: &QueueClear) -> (r: CommandResponse)
    ensures
        (r.ok, r.message@) == spec_command_reply(*c, *q),
{
    let mut v: Vec<char> = Vec::new();
    let ok = match c {
        Command::Reset => match q {
            QueueClear::NotAttached => {
                append_str(&mut v, "counters cleared (no queue attached)");
                true
            },
            QueueClear::Cleared => {
                append_str(&mut v, "counters and queue cleared");
                true
            },
            QueueClear::Failed(e) => {
                append_str(&mut v, "counters cleared, queue clear failed: ");
                append_str(&mut v, e.as_str());
                false
            },
        },
        Command::Override { seconds } => {
            append_str(&mut v, "override raw passthrough enabled for ");
            let d = decimal_of(*seconds);
            append_chars(&mut v, d.as_slice());
            append_str(&mut v, "s");
            true
        },
        Command::Diagnostic { seconds } => {
            append_str(&mut v, "diagnostic tracing enabled for ");
            let d = decimal_of(*seconds);
            append_chars(&mut v, d.as_slice());
            append_str(&mut v, "s");
            true
        },
        Command::Online => {
            append_str(&mut v, "marked online");
            true
        },
        Command::Offline => {
            append_str(&mut v, "marked offline");
            true
        },
        Command::Unknown { command } => {
            append_str(&mut v, "unknown command: ");
            append_str(&mut v, command.as_str());
            false
        },
    };
    CommandResponse { ok, message: string_from(v.as_slice()) }
}

/// The reply of the `reset` tool.
pub open spec fn spec_reset_tool_reply(q: QueueClear) -> Seq<char> {
    match q {
        QueueClear::NotAttached => "reset: counters cleared (no queue attached)"@,
        QueueClear::Cleared => "reset: counters and queue cleared"@,
        QueueClear::Failed(e) => "reset: counters cleared, queue clear FAILED: "@ + e@,
    }
}

pub fn reset_tool_reply(q: &QueueClear) -> (r: String)
    ensures
        r@ == spec_reset_tool_reply(*q),
{
    let mut v: Vec<char> = Vec::new();
    match q {
        QueueClear::NotAttached => append_str(&mut v, "reset: counters cleared (no queue attached)"),
        QueueClear::Cleared => append_str(&mut v, "reset: counters and queue cleared"),
        QueueClear::Failed(e) => {
            append_str(&mut v, "reset: counters cleared, queue clear FAILED: ");
            append_str(&mut v, e.as_str());
        },
    }
    string_from(v.as_slice())
}

/// The reply of the `diagnostic` tool.
pub fn diagnostic_tool_reply(seconds: u64) -> (r: String)
    ensures
        r@ == "diagnostic: enabled for "@ + decimal(seconds as nat) + " seconds"@,
{
    let mut v: Vec<char> = Vec::new();
    append_str(&mut v, "diagnostic: enabled for ");
    let d = decimal_of(seconds);
    append_chars(&mut v, d.as_slice());
    append_str(&mut v, " seconds");
    string_from(v.as_slice())
}

/// The reply of the `override` tool.
pub fn override_tool_reply(seconds: u64) -> (r: String)
    ensures
        r@ == "override: raw passthrough enabled for "@ + decimal(seconds as nat) + " seconds"@,
{
    let mut v: Vec<char> = Vec::new();
    append_str(&mut v, "override: raw passthrough enabled for ");
    let d = decimal_of(seconds);
    append_chars(&mut v, d.as_slice());
    append_str(&mut v, " seconds");
    string_from(v.as_slice())
}

pub open spec fn bool_text(b: bool) -> Seq<char> {
    if b {
        "true"@
    } else {
        "false"@
    }
}

/// The reply of the `replay_raw` tool (replay is not wired yet).
pub fn replay_tool_reply(p: &ReplayParams, queue_attached: bool) -> (r: String)
    ensures
        r@ == "replay_raw: stub. requested window "@ + decimal(p.from as nat) + ".."@ + decimal(
            p.to as nat,
        ) + ", queue_attached="@ + bool_text(queue_attached)
            + ". Will be wired in a future iteration that adds a separate history table."@,
{
    let mut v: Vec<char> = Vec::new();
    append_str(&mut v, "replay_raw: stub. requested window ");
    let a = decimal_of(p.from);
    append_chars(&mut v, a.as_slice());
    append_str(&mut v, "..");
    let b = decimal_of(p.to);
    append_chars(&mut v, b.as_slice());
    append_str(&mut v, ", queue_attached=");
    if queue_attached {
        append_str(&mut v, "true");
    } else {
        append_str(&mut v, "false");
    }
    append_str(&mut v, ". Will be wired in a future iteration that adds a separate history table.");
    string_from(v.as_slice())
}

/// How many incidents the `recent_incidents` tool lists: 10 by default, at
/// least one.
pub fn tool_limit(p: &IncidentsParams) -> (n: i64)
    ensures
        n == (match p.limit {
            Some(l) => if l < 1 {
                1
            } else {
                l
            },
            None => 10,
        }),
{
    match p.limit {
        Some(l) => if l < 1 {
            1
        } else {
            l
        },
        None => 10,
    }
}

/// How many incidents `/api/incidents` lists when the query names none.
pub fn default_limit() -> (n: i64)
    ensures
        n == 20,
{
    20
}

/// The `/api/incidents` limit, at least one.
pub fn rest_limit(limit: i64) -> (n: i64)
    ensures
        n == (if limit < 1 {
            1
        } else {
            limit
        }),
{
    if limit < 1 {
        1
    } else {
        limit
    }
}

/// The id of a decision card.
pub open spec fn card_id(ev: Option<ProcessedEvent>) -> Option<Seq<char>> {
    match ev {
        Some(ProcessedEvent::DecisionCard { decision_id, .. }) => Some(decision_id@),
        _ => None,
    }
}

/// The reply of the `acknowledge` tool.
pub open spec fn spec_acknowledge_reply(decision: Option<ProcessedEvent>, actor: Option<Seq<char>>) -> Seq<char> {
    match card_id(decision) {
        Some(id) => "decision "@ + id + " acknowledged by "@ + (match actor {
            Some(a) => a,
            None => "unknown"@,
        }),
        None => "no active decision to acknowledge"@,
    }
}

pub fn acknowledge_tool_reply(decision: &Option<ProcessedEvent>, p: &AcknowledgeParams) -> (r: String)
    ensures
        r@ == spec_acknowledge_reply(*decision, crate::incident_memory::opt_chars(p.actor)),
{
    let mut v: Vec<char> = Vec::new();
    match decision {
        Some(ProcessedEvent::DecisionCard { decision_id, .. }) => {
            append_str(&mut v, "decision ");
            append_str(&mut v, decision_id.as_str());
            append_str(&mut v, " acknowledged by ");
            match &p.actor {
                Some(a) => append_str(&mut v, a.as_str()),
                None => append_str(&mut v, "unknown"),
            }
        },
        _ => append_str(&mut v, "no active decision to acknowledge"),
    }
    string_from(v.as_slice())
}

/// The reply of `POST /api/decision/ack`.
pub struct AckResponse {
    pub ok: bool,
    pub message: String,
    pub decision_id: Option<String>,
    pub actor: String,
}

/// The REST acknowledgement: the actor (trimmed, `unknown` when absent)
/// takes the latest card, if there is one.
pub fn ack_response(decision: &Option<ProcessedEvent>, actor: Option<String>) -> (r: AckResponse)
    ensures
        r.ok == (card_id(*decision) is Some),
        crate::incident_memory::opt_chars(r.decision_id) == card_id(*decision),
        r.actor@ == trim(match actor {
            Some(a) => a@,
            None => "unknown"@,
        }),
        r.message@ == (if card_id(*decision) is Some {
            "decision acknowledged"@
        } else {
            "no active decision to acknowledge"@
        }),
{
    let decision_id = match decision {
        Some(ProcessedEvent::DecisionCard { decision_id, .. }) => Some(decision_id.clone()),
        _ => None,
    };
    let raw = match actor {
        Some(a) => a,
        None => "unknown".to_string(),
    };
    let t = trim_chars(chars_of(raw.as_str()).as_slice());
    let ok = decision_id.is_some();
    let message = if ok {
        "decision acknowledged".to_string()
    } else {
        "no active decision to acknowledge".to_string()
    };
    AckResponse { ok, message, decision_id, actor: string_from(t.as_slice()) }
}

/// The reply of the `resolve_incident` tool once the store answered.
pub open spec fn spec_resolve_tool_reply(incident_id: Seq<char>, resolved: Option<(Seq<char>, Option<i64>)>) -> Seq<char> {
    match resolved {
        Some((id, minutes)) => "incident "@ + id + " resolved (in "@ + signed_decimal(
            (match minutes {
                Some(m) => m,
                None => 0,
            }) as int,
        ) + " min). Aegis will surface this fix on the next similar incident."@,
        None => "incident "@ + incident_id + " not found"@,
    }
}

pub fn resolve_tool_reply(incident_id: &str, resolved: &Option<Fingerprint>) -> (r: String)
    ensures
        r@ == spec_resolve_tool_reply(
            incident_id@,
            match *resolved {
                Some(f) => Some((f.id@, f.resolved_in_minutes)),
                None => None,
            },
        ),
{
    let mut v: Vec<char> = Vec::new();
    match resolved {
        Some(f) => {
            append_str(&mut v, "incident ");
            append_str(&mut v, f.id.as_str());
            append_str(&mut v, " resolved (in ");
            let m = match f.resolved_in_minutes {
                Some(m) => m,
                None => 0,
            };
            let d = signed_decimal_of(m);
            append_chars(&mut v, d.as_slice());
            append_str(&mut v, " min). Aegis will surface this fix on the next similar incident.");
        },
        None => {
            append_str(&mut v, "incident ");
            append_str(&mut v, incident_id);
            append_str(&mut v, " not found");
        },
    }
    string_from(v.as_slice())
}

/// The message of `POST /api/incidents/{id}/resolve` once the store
/// answered.
pub fn resolve_rest_message(incident_id: &str, found: bool) -> (r: String)
    ensures
        r@ == "incident "@ + incident_id@ + (if found {
            " resolved"@
        } else {
            " not found"@
        }),
{
    let mut v: Vec<char> = Vec::new();
    append_str(&mut v, "incident ");
    append_str(&mut v, incident_id);
    if found {
        append_str(&mut v, " resolved");
    } else {
        append_str(&mut v, " not found");
    }
    string_from(v.as_slice())
}

} // verus!
