use aegis_core::control::{window_end_fits, Control};
use aegis_core::event::{HealthState, ProcessedEvent};

#[test]
fn override_and_diagnostic_windows_expire() {
    let mut c = Control::new(100);
    assert!(!c.override_active(1_000));
    c.enable_override(30, 1_000);
    assert!(c.override_active(1_000));
    assert!(c.override_active(30_999));
    assert!(!c.override_active(31_000));
    c.enable_diagnostic(1, 5_000);
    assert!(c.diagnostic_active(5_999));
    assert!(!c.diagnostic_active(6_000));
}

#[test]
fn reset_clears_counters_windows_and_card() {
    let mut c = Control::new(100);
    c.observe_in(10);
    c.observe_out(4);
    c.set_queue_depth(7);
    c.set_unique_signatures(3);
    c.set_incidents_remembered(9);
    c.set_state(HealthState::Red);
    c.set_latest_decision(Some(ProcessedEvent::Raw { line: "x".into(), ts_ms: 1, source: "s".into(), service: "v".into() }));
    c.enable_override(60, 0);
    c.set_online(false);
    c.reset();
    let s = c.snapshot(160, 0);
    assert_eq!((s.events_in, s.events_out, s.queue_depth, s.unique_signatures), (0, 0, 0, 0));
    assert!(!s.override_active && !s.diagnostic_active);
    assert_eq!(s.state, "green");
    assert!(s.decision.is_none());
    assert_eq!(c.state(), HealthState::Green);
    // The memory gauge, the online flag and the start time survive a reset.
    assert_eq!(s.incidents_remembered, 9);
    assert!(!s.online);
    assert_eq!(s.uptime_secs, 60);
}

#[test]
fn counters_wrap_like_atomics() {
    let mut c = Control::new(0);
    c.observe_in(u64::MAX);
    c.observe_in(2);
    assert_eq!(c.events_in, 1);
    let s = c.snapshot(0, 0);
    assert_eq!(s.uptime_secs, 0);
    assert_eq!(s.events_in, 1);
}

#[test]
fn window_end_must_fit_in_milliseconds() {
    assert!(window_end_fits(1_000, 30));
    assert!(window_end_fits(0, u64::MAX));
    assert!(window_end_fits(u64::MAX - 30_000, 30));
    assert!(!window_end_fits(u64::MAX - 29_999, 30));
    assert!(!window_end_fits(1, u64::MAX));
}

#[test]
fn snapshot_carries_a_copy_of_the_latest_card() {
    let mut c = Control::new(0);
    let card = ProcessedEvent::DecisionCard {
        decision_id: "d1".into(),
        ts_ms: 5,
        state: HealthState::Red,
        chain_id: Some("ch".into()),
        root_cause_service: Some("db".into()),
        headline: "db broke first.".into(),
        suggested_next_step: "Check db.".into(),
        business_impact: None,
        similar_incidents: Vec::new(),
    };
    c.set_latest_decision(Some(card.clone()));
    c.set_state(HealthState::Red);
    let s = c.snapshot(10, 0);
    assert_eq!(s.decision, Some(card));
    assert_eq!(s.state, "red");
    assert_eq!(s.uptime_secs, 10);
}
