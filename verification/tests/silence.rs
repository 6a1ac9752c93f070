use aegis_core::event::ProcessedEvent;
use aegis_core::silence::{SilenceDetector, SilenceParams};

fn first(service: &str, ts_ms: u64) -> ProcessedEvent {
    ProcessedEvent::FirstOccurrence {
        signature: "sig".into(),
        line: format!("ERROR {service}: hello"),
        ts_ms,
        source: "tcp://x".into(),
        service: service.into(),
    }
}

#[test]
fn does_not_flag_a_chatty_service() {
    let mut d = SilenceDetector::new(SilenceParams { silence_secs: 1, sweep_secs: 1 });
    let now = 1_700_000_000_000;
    d.on_event(&first("svc", now));
    // The next sweep comes 200 ms later: no silent event.
    assert!(d.on_sweep(now + 200).is_empty());
}

#[test]
fn flags_a_service_that_stops() {
    let mut d = SilenceDetector::new(SilenceParams { silence_secs: 1, sweep_secs: 1 });
    let now = 1_700_000_000_000;
    // First-occurrence at ts=now-5s; the next sweep finds it stale.
    d.on_event(&first("svc", now - 5_000));
    let out = d.on_sweep(now + 1_500);
    let silent = out.into_iter().next().expect("expected a silent event");
    match silent {
        ProcessedEvent::ServiceSilent { service, last_seen_ms, silence_ms, last_sample } => {
            assert_eq!(service, "svc");
            assert_eq!(last_seen_ms, now - 5_000);
            assert_eq!(silence_ms, 6_500);
            assert_eq!(last_sample.as_deref(), Some("ERROR svc: hello"));
        }
        _ => unreachable!(),
    }
}

#[test]
fn a_silent_service_is_reported_once_until_it_talks() {
    let mut d = SilenceDetector::new(SilenceParams::default());
    d.on_event(&first("svc", 1_000));
    assert_eq!(d.on_sweep(200_000).len(), 1);
    assert!(d.on_sweep(400_000).is_empty());
    d.on_event(&first("svc", 500_000));
    assert!(d.on_sweep(550_000).is_empty());
    assert_eq!(d.on_sweep(700_000).len(), 1);
    assert_eq!(d.sweep_period_secs(), 10);
}

#[test]
fn older_events_and_other_kinds_do_not_move_the_clock() {
    let mut d = SilenceDetector::new(SilenceParams { silence_secs: 10, sweep_secs: 0 });
    d.on_event(&first("svc", 50_000));
    d.on_event(&first("svc", 10_000));
    d.on_event(&ProcessedEvent::ServiceSilent { service: "svc".into(), last_seen_ms: 0, silence_ms: 0, last_sample: None });
    assert!(d.on_sweep(59_999).is_empty());
    assert_eq!(d.on_sweep(60_000).len(), 1);
    assert_eq!(d.sweep_period_secs(), 1);
}

#[test]
fn summaries_keep_their_source_alive() {
    let mut d = SilenceDetector::new(SilenceParams { silence_secs: 1, sweep_secs: 1 });
    d.on_event(&first("svc", 1_000));
    d.on_event(&ProcessedEvent::Summary {
        source: "svc".into(),
        window_ms: 9_000,
        first_seen_ms: 1_000,
        last_seen_ms: 10_000,
        suppressed_lines: 40,
        unique_signatures: 2,
        top_signatures: Vec::new(),
    });
    // The summary moved the last-seen time to 10 s: nothing is silent yet.
    assert!(d.on_sweep(10_500).is_empty());
    // Quiet after the summary: reported, with no single sample.
    let out = d.on_sweep(11_000);
    assert_eq!(out.len(), 1);
    match &out[0] {
        ProcessedEvent::ServiceSilent { service, last_seen_ms, last_sample, .. } => {
            assert_eq!(service, "svc");
            assert_eq!(*last_seen_ms, 10_000);
            assert_eq!(*last_sample, None);
        }
        _ => unreachable!(),
    }
}
