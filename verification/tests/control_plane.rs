use aegis_core::control::Control;
use aegis_core::control_plane::{
    ack_response, acknowledge_tool_reply, apply_command, command_reply, default_limit, diagnostic_tool_reply,
    override_tool_reply, parse_command, replay_tool_reply, reset_tool_reply, resolve_rest_message,
    resolve_tool_reply, rest_limit, tool_limit, AcknowledgeParams, Command, IncidentsParams, QueueClear,
    ReplayParams,
};
use aegis_core::event::{HealthState, ProcessedEvent};
use aegis_core::incident_memory::Fingerprint;

fn card(id: &str) -> ProcessedEvent {
    ProcessedEvent::DecisionCard {
        decision_id: id.into(),
        ts_ms: 0,
        state: HealthState::Red,
        chain_id: None,
        root_cause_service: None,
        headline: String::new(),
        suggested_next_step: String::new(),
        business_impact: None,
        similar_incidents: vec![],
    }
}

#[test]
fn commands_parse_with_default_duration() {
    assert!(matches!(parse_command("reset", None), Command::Reset));
    assert!(matches!(parse_command("override", None), Command::Override { seconds: 30 }));
    assert!(matches!(parse_command("diagnostic", Some(5)), Command::Diagnostic { seconds: 5 }));
    assert!(matches!(parse_command("online", None), Command::Online));
    assert!(matches!(parse_command("offline", None), Command::Offline));
    match parse_command("reboot", None) {
        Command::Unknown { command } => assert_eq!(command, "reboot"),
        _ => panic!("expected Unknown"),
    }
}

#[test]
fn commands_apply_to_the_control_state() {
    let mut c = Control::new(0);
    apply_command(&mut c, &parse_command("override", Some(10)), 1_000);
    assert!(c.override_active(10_999));
    apply_command(&mut c, &parse_command("offline", None), 0);
    assert!(!c.online);
    apply_command(&mut c, &parse_command("reset", None), 0);
    assert!(!c.override_active(0));
}

#[test]
fn command_replies() {
    let r = command_reply(&Command::Reset, &QueueClear::Cleared);
    assert!(r.ok);
    assert_eq!(r.message, "counters and queue cleared");
    let r = command_reply(&Command::Reset, &QueueClear::NotAttached);
    assert_eq!(r.message, "counters cleared (no queue attached)");
    let r = command_reply(&Command::Reset, &QueueClear::Failed("disk".into()));
    assert!(!r.ok);
    assert_eq!(r.message, "counters cleared, queue clear failed: disk");
    assert_eq!(command_reply(&Command::Override { seconds: 30 }, &QueueClear::NotAttached).message, "override raw passthrough enabled for 30s");
    assert_eq!(command_reply(&Command::Diagnostic { seconds: 7 }, &QueueClear::NotAttached).message, "diagnostic tracing enabled for 7s");
    assert_eq!(command_reply(&Command::Online, &QueueClear::NotAttached).message, "marked online");
    assert_eq!(command_reply(&Command::Offline, &QueueClear::NotAttached).message, "marked offline");
    let r = command_reply(&Command::Unknown { command: "x".into() }, &QueueClear::NotAttached);
    assert!(!r.ok);
    assert_eq!(r.message, "unknown command: x");
}

#[test]
fn tool_replies() {
    assert_eq!(reset_tool_reply(&QueueClear::Cleared), "reset: counters and queue cleared");
    assert_eq!(reset_tool_reply(&QueueClear::NotAttached), "reset: counters cleared (no queue attached)");
    assert_eq!(reset_tool_reply(&QueueClear::Failed("e".into())), "reset: counters cleared, queue clear FAILED: e");
    assert_eq!(diagnostic_tool_reply(60), "diagnostic: enabled for 60 seconds");
    assert_eq!(override_tool_reply(5), "override: raw passthrough enabled for 5 seconds");
    assert_eq!(
        replay_tool_reply(&ReplayParams { from: 1, to: 2 }, false),
        "replay_raw: stub. requested window 1..2, queue_attached=false. Will be wired in a future iteration that adds a separate history table."
    );
}

#[test]
fn limits() {
    assert_eq!(tool_limit(&IncidentsParams { limit: None }), 10);
    assert_eq!(tool_limit(&IncidentsParams { limit: Some(0) }), 1);
    assert_eq!(tool_limit(&IncidentsParams { limit: Some(25) }), 25);
    assert_eq!(default_limit(), 20);
    assert_eq!(rest_limit(-3), 1);
    assert_eq!(rest_limit(4), 4);
}

#[test]
fn acknowledgements() {
    assert_eq!(acknowledge_tool_reply(&None, &AcknowledgeParams { actor: None }), "no active decision to acknowledge");
    assert_eq!(acknowledge_tool_reply(&Some(card("d1")), &AcknowledgeParams { actor: None }), "decision d1 acknowledged by unknown");
    assert_eq!(
        acknowledge_tool_reply(&Some(card("d1")), &AcknowledgeParams { actor: Some("ana".into()) }),
        "decision d1 acknowledged by ana"
    );
    let r = ack_response(&Some(card("d2")), Some("  bob  ".into()));
    assert!(r.ok);
    assert_eq!(r.message, "decision acknowledged");
    assert_eq!(r.decision_id.as_deref(), Some("d2"));
    assert_eq!(r.actor, "bob");
    let r = ack_response(&None, None);
    assert!(!r.ok);
    assert_eq!(r.message, "no active decision to acknowledge");
    assert_eq!(r.actor, "unknown");
}

#[test]
fn resolve_replies() {
    let fp = Fingerprint {
        id: "inc-9".into(),
        chain_id: "c".into(),
        ts_ms: 0,
        root_cause_service: "db".into(),
        services: vec![],
        signatures: vec![],
        chain: vec![],
        cause: Some("c".into()),
        fix: Some("f".into()),
        resolved_at_ms: Some(60_000),
        resolved_in_minutes: Some(1),
    };
    assert_eq!(
        resolve_tool_reply("inc-9", &Some(fp)),
        "incident inc-9 resolved (in 1 min). Aegis will surface this fix on the next similar incident."
    );
    assert_eq!(resolve_tool_reply("nope", &None), "incident nope not found");
    assert_eq!(resolve_rest_message("a", true), "incident a resolved");
    assert_eq!(resolve_rest_message("a", false), "incident a not found");
}
