use aegis_core::config::{AegisConfig, DedupConfig, IngestConfig, MemoryConfig, QueueConfig, SelfMetricsConfig};
use aegis_core::decision::DecisionParams;
use aegis_core::hec::{default_timeout, default_verify, next_backoff, DrainPacing, HecSinkConfig};
use aegis_core::sidecar::endpoint_url;
use aegis_core::silence::SilenceParams;
use aegis_core::table::NameTable;

#[test]
fn configuration_defaults() {
    let c = AegisConfig::default();
    assert!(c.hec.is_none());
    assert_eq!(c.ingest.tcp_listen.as_deref(), Some("127.0.0.1:5140"));
    assert_eq!(c.dedup.window_secs, 30);
    assert_eq!(c.dedup.max_open_signatures, 4096);
    assert_eq!(c.summary.flush_secs, 30);
    assert_eq!(c.summary.batch_size, 500);
    assert_eq!(c.queue.path, "data/aegis-queue.sqlite");
    assert_eq!(c.queue.max_disk_bytes, 1_073_741_824);
    assert_eq!(c.sidecar.url, "http://127.0.0.1:8765");
    assert_eq!(c.self_metrics.sourcetype, "aegis:selfmetric");
    assert_eq!(c.mcp.http_listen.as_deref(), Some("127.0.0.1:7321"));
    assert_eq!((c.causal.window_secs, c.causal.min_services, c.causal.cooldown_secs), (60, 3, 300));
    assert_eq!(c.memory.path, "data/aegis-incidents.sqlite");
    assert_eq!((c.memory.top_matches, c.memory.min_similarity_bp), (3, 2500));
    assert_eq!(c.decision.idle_to_green_secs, 300);
    assert!(c.silence.enabled);
    assert_eq!(DedupConfig::default(), DedupConfig { window_secs: 30, max_open_signatures: 4096 });
    assert!(IngestConfig::default().udp_listen.is_none());
    assert!(QueueConfig::default().priority_anomaly_first);
    assert_eq!(SelfMetricsConfig::default().flush_secs, 15);
    assert_eq!(MemoryConfig::default().top_matches, 3);
    let p = DecisionParams::default();
    assert_eq!((p.max_similar_incidents, p.min_similarity_bp, p.idle_to_green_secs), (3, 2500, 300));
    let s = SilenceParams::default();
    assert_eq!((s.silence_secs, s.sweep_secs), (120, 10));
}

#[test]
fn hec_pacing() {
    assert_eq!(default_timeout(), 10);
    assert!(default_verify());
    let c = HecSinkConfig::for_host("edge-1".into());
    assert_eq!((c.batch_size, c.drain_interval_ms, c.max_backoff_ms), (200, 500, 30_000));
    assert_eq!(c.host, "edge-1");
    assert_eq!(next_backoff(500, 30_000), 1_000);
    assert_eq!(next_backoff(16_000, 30_000), 30_000);
    assert_eq!(next_backoff(15_000, 30_000), 30_000);
    assert_eq!(next_backoff(u64::MAX, 30_000), 30_000);
}

#[test]
fn sidecar_endpoints() {
    assert_eq!(endpoint_url("http://127.0.0.1:8765", "classify"), "http://127.0.0.1:8765/classify");
    assert_eq!(endpoint_url("http://h:1///", "health"), "http://h:1/health");
}

#[test]
fn name_tables() {
    let mut t = NameTable::from_pairs(vec![("a".into(), "1".into()), ("b".into(), "2".into())]);
    assert_eq!(t.len(), 2);
    t.set("a".into(), "3".into());
    assert_eq!(t.get("a"), Some("3"));
    assert_eq!(t.get("b"), Some("2"));
    assert_eq!(t.get("c"), None);
    assert_eq!(t.len(), 2);
    let u = t.clone();
    assert_eq!(u.get("a"), Some("3"));
}

#[test]
fn drain_backs_off_on_failure_and_resets_on_delivery() {
    let c = HecSinkConfig::for_host("edge-1".into());
    let mut p = DrainPacing::new(&c);
    assert_eq!(p.backoff_ms, 500);
    let waits: Vec<u64> = (0..8).map(|_| p.after_delivery(false, &c)).map(|s| { assert!(!s.online); s.wait_ms }).collect();
    assert_eq!(waits, vec![500, 1_000, 2_000, 4_000, 8_000, 16_000, 30_000, 30_000]);
    let s = p.after_delivery(true, &c);
    assert!(s.online);
    assert_eq!(s.wait_ms, 0);
    assert_eq!(p.backoff_ms, 500);
}
