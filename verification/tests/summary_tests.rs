use ptop::ping::PingUpdate;
use ptop::stats::{PingResult, TargetStats};
use ptop::summary::{
    apply_update, build_session_summary, raw_flush_due, summary_due, RAW_FLUSH_INTERVAL,
    SUMMARY_INTERVAL_US,
};
use ptop::target::Target;
use ptop::view::ViewMode;

#[test]
fn test_summary_due_after_interval() {
    assert!(!summary_due(0, 0));
    assert!(!summary_due(0, SUMMARY_INTERVAL_US - 1));
    assert!(summary_due(0, SUMMARY_INTERVAL_US));
    assert!(summary_due(5, SUMMARY_INTERVAL_US + 5));
    assert!(!summary_due(10, 5)); // clock behind the last snapshot
}

#[test]
fn test_apply_update_records_into_owner() {
    let mut stats = vec![TargetStats::new(), TargetStats::new()];
    apply_update(&mut stats, PingUpdate { target_idx: 1, result: PingResult::Success(4000) });
    assert_eq!(stats[0].sent, 0);
    assert_eq!(stats[1].sent, 1);
    assert_eq!(stats[1].current(), Some(4000));
}

#[test]
fn test_apply_update_drops_out_of_range_index() {
    let mut stats = vec![TargetStats::new()];
    apply_update(&mut stats, PingUpdate { target_idx: 5, result: PingResult::Timeout });
    assert_eq!(stats[0].sent, 0);
}

#[test]
fn test_build_session_summary_values() {
    let targets = vec![
        Target::new("Cloudflare".to_string(), "1.1.1.1".to_string()),
        Target::new("Google".to_string(), "8.8.8.8".to_string()),
    ];
    let mut stats = vec![TargetStats::new(), TargetStats::new()];
    for _ in 0..8 {
        stats[0].record(PingResult::Success(10_000));
    }
    stats[0].record(PingResult::Timeout);
    stats[0].record(PingResult::Timeout);
    stats[1].record(PingResult::Success(20_000));

    let summary = build_session_summary(&targets, &mut stats, 1_000_000, 61_000_000);

    assert_eq!(summary.started_us, 1_000_000);
    assert_eq!(summary.ended_us, 61_000_000);
    assert_eq!(summary.duration_secs, 60);
    assert_eq!(summary.targets.len(), 2);

    let first = &summary.targets[0];
    assert_eq!(first.name, "Cloudflare");
    assert_eq!(first.addr, "1.1.1.1");
    assert_eq!(first.sent, 10);
    assert_eq!(first.received, 8);
    assert_eq!(first.loss_pct, 2000); // 20.00%
    assert_eq!(first.latency_us.min, Some(10_000));
    assert_eq!(first.latency_us.max, Some(10_000));
    assert_eq!(first.latency_us.avg, Some(10_000));
    assert_eq!(first.latency_us.p50, Some(10_000));
    assert!(first.mos.is_some());
    assert!(first.quality_grade.is_some());

    let second = &summary.targets[1];
    assert_eq!(second.sent, 1);
    assert_eq!(second.loss_pct, 0);
    assert_eq!(second.jitter_us, None);

    // summarising changes no reading
    assert_eq!(stats[0].sent, 10);
    assert_eq!(stats[0].received, 8);
}

#[test]
fn test_view_mode_values() {
    let m = ViewMode::List;
    assert_eq!(m, ViewMode::List);
    assert_ne!(m, ViewMode::Detail);
    let copied = m;
    assert_eq!(copied, ViewMode::List);
}

#[test]
fn test_default_targets() {
    let defaults = ptop::target::default_targets();
    assert_eq!(defaults.len(), 3);
    assert_eq!(defaults[0].name, "Cloudflare");
    assert_eq!(defaults[0].addr, "1.1.1.1");
    assert_eq!(defaults[1].name, "Google");
    assert_eq!(defaults[1].addr, "8.8.8.8");
    assert_eq!(defaults[2].name, "Quad9");
    assert_eq!(defaults[2].addr, "9.9.9.9");
}

#[test]
fn test_target_new() {
    let t = Target::new("Gateway".to_string(), "192.168.1.1".to_string());
    assert_eq!(t.name, "Gateway");
    assert_eq!(t.addr, "192.168.1.1");
}

#[test]
fn test_raw_flush_due_every_interval() {
    assert!(!raw_flush_due(1));
    assert!(!raw_flush_due(RAW_FLUSH_INTERVAL - 1));
    assert!(raw_flush_due(RAW_FLUSH_INTERVAL));
    assert!(!raw_flush_due(RAW_FLUSH_INTERVAL + 1));
    assert!(raw_flush_due(2 * RAW_FLUSH_INTERVAL));
}

#[test]
fn test_apply_update_drops_on_saturated_counter() {
    let mut stats = vec![TargetStats::new()];
    stats[0].sent = u64::MAX;
    apply_update(&mut stats, PingUpdate { target_idx: 0, result: PingResult::Timeout });
    assert_eq!(stats[0].sent, u64::MAX);
    assert_eq!(stats[0].received, 0);
}
