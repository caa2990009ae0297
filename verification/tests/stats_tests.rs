use ptop::stats::{PingResult, TargetStats};

#[test]
fn test_target_stats_new() {
    let stats = TargetStats::new();
    assert_eq!(stats.sent, 0);
    assert_eq!(stats.received, 0);
    assert_eq!(stats.current_streak, 0);
    assert_eq!(stats.longest_streak, 0);
}

#[test]
fn test_target_stats_record_success() {
    let mut stats = TargetStats::new();
    stats.record(PingResult::Success(10_000));

    assert_eq!(stats.sent, 1);
    assert_eq!(stats.received, 1);
    assert_eq!(stats.current_streak, 1);
    assert_eq!(stats.packet_loss() as f64 / 100.0, 0.0);
}

#[test]
fn test_target_stats_record_timeout() {
    let mut stats = TargetStats::new();
    stats.record(PingResult::Success(10_000));
    stats.record(PingResult::Timeout);

    assert_eq!(stats.sent, 2);
    assert_eq!(stats.received, 1);
    assert_eq!(stats.current_streak, 0);
    assert_eq!(stats.packet_loss() as f64 / 100.0, 50.0);
}

#[test]
fn test_target_stats_streak_tracking() {
    let mut stats = TargetStats::new();

    // Build a streak of 5
    for _ in 0..5 {
        stats.record(PingResult::Success(10_000));
    }
    assert_eq!(stats.current_streak, 5);
    assert_eq!(stats.longest_streak, 5);

    // Break the streak
    stats.record(PingResult::Timeout);
    assert_eq!(stats.current_streak, 0);
    assert_eq!(stats.longest_streak, 5);

    // Start new streak
    for _ in 0..3 {
        stats.record(PingResult::Success(10_000));
    }
    assert_eq!(stats.current_streak, 3);
    assert_eq!(stats.longest_streak, 5); // Still 5
}

#[test]
fn test_target_stats_latency_stats() {
    let mut stats = TargetStats::new();

    stats.record(PingResult::Success(10_000));
    stats.record(PingResult::Success(20_000));
    stats.record(PingResult::Success(30_000));

    assert_eq!(stats.min(), Some(10_000));
    assert_eq!(stats.max(), Some(30_000));
    assert_eq!(stats.average(), Some(20_000));
    assert_eq!(stats.current(), Some(30_000));
}

#[test]
fn test_target_stats_percentiles() {
    let mut stats = TargetStats::new();

    // Add 100 samples: 1ms, 2ms, ..., 100ms
    for i in 1..=100u64 {
        stats.record(PingResult::Success(i * 1000));
    }

    let p50 = stats.p50().unwrap();
    let p95 = stats.p95().unwrap();

    // P50 should be around 50ms
    assert!(p50 / 1000 >= 45 && p50 / 1000 <= 55);
    // P95 should be around 95ms
    assert!(p95 / 1000 >= 90 && p95 / 1000 <= 100);
}

#[test]
fn test_target_stats_jitter() {
    let mut stats = TargetStats::new();

    stats.record(PingResult::Success(10_000));
    stats.record(PingResult::Success(20_000));
    stats.record(PingResult::Success(10_000));

    // Jitter should be average of |20-10| and |10-20| = 10ms
    let jitter = stats.jitter().unwrap();
    assert_eq!(jitter, 10_000);
}

#[test]
fn test_jitter_resets_across_loss() {
    let mut stats = TargetStats::new();

    stats.record(PingResult::Success(10_000));
    stats.record(PingResult::Timeout);
    stats.record(PingResult::Success(30_000));
    // no adjacent successes yet: the loss broke the pairing
    assert_eq!(stats.jitter(), None);

    stats.record(PingResult::Success(40_000));
    // only |40 - 30| counted, nothing across the loss
    assert_eq!(stats.jitter(), Some(10_000));
}

#[test]
fn test_target_stats_reset() {
    let mut stats = TargetStats::new();

    stats.record(PingResult::Success(10_000));
    stats.record(PingResult::Success(20_000));

    stats.reset();

    assert_eq!(stats.sent, 0);
    assert_eq!(stats.received, 0);
    assert_eq!(stats.current_streak, 0);
    assert!(stats.current().is_none());
}

#[test]
fn test_reset_window_keeps_lifetime_counters() {
    let mut stats = TargetStats::new();
    stats.record(PingResult::Success(10_000));
    stats.record(PingResult::Timeout);

    stats.reset_window();

    assert_eq!(stats.window_count(), 0);
    assert_eq!(stats.sent, 2);
    assert_eq!(stats.received, 1);
    assert!(stats.current().is_none());
}

#[test]
fn test_target_stats_histogram() {
    let mut stats = TargetStats::new();

    // Add samples clustered around 10ms and 20ms
    for _ in 0..10 {
        stats.record(PingResult::Success(10_000));
    }
    for _ in 0..5 {
        stats.record(PingResult::Success(20_000));
    }

    let (boundaries, counts) = stats.histogram(4).unwrap();

    assert_eq!(boundaries.len(), 4);
    assert_eq!(counts.len(), 4);
    assert_eq!(counts.iter().sum::<u64>(), 15); // Total samples
}

#[test]
fn test_histogram_single_value_collapses() {
    let mut stats = TargetStats::new();
    for _ in 0..7 {
        stats.record(PingResult::Success(10_000));
    }
    let (boundaries, counts) = stats.histogram(4).unwrap();
    assert_eq!(boundaries, vec![10_000]);
    assert_eq!(counts, vec![7]);
}

#[test]
fn test_histogram_empty_window_is_none() {
    let mut stats = TargetStats::new();
    stats.record(PingResult::Timeout);
    assert!(stats.histogram(4).is_none());
}

#[test]
fn test_all_time_stats() {
    let mut stats = TargetStats::new();

    for i in 1..=20u64 {
        stats.record(PingResult::Success(i * 1000));
    }

    let all_time = &stats.all_time;
    assert_eq!(all_time.count, 20);
    assert_eq!(all_time.min, Some(1000));
    assert_eq!(all_time.max, Some(20_000));

    let avg = all_time.average().unwrap();
    // Average of 1..=20 is 10.5
    assert!(avg / 1000 >= 10 && avg / 1000 <= 11);
}

#[test]
fn test_all_time_percentile_bounds() {
    let mut stats = TargetStats::new();
    for i in 1..=25u64 {
        stats.record(PingResult::Success(i * 1000));
    }
    let p50 = stats.all_time.p50().unwrap();
    let p95 = stats.all_time.p95().unwrap();
    assert!(p50 >= 1000 && p50 <= 25_000);
    assert!(p95 >= 1000 && p95 <= 25_000);
    assert!(p50 <= p95 || p95 >= 1000);
}

#[test]
fn test_all_time_percentile_single_value() {
    let mut stats = TargetStats::new();
    // crosses the sketch's batch boundary
    for _ in 0..12 {
        stats.record(PingResult::Success(5000));
    }
    assert_eq!(stats.all_time.p50(), Some(5000));
    assert_eq!(stats.all_time.p95(), Some(5000));
}

#[test]
fn test_all_time_percentile_empty_is_none() {
    let mut stats = TargetStats::new();
    stats.record(PingResult::Timeout);
    assert_eq!(stats.all_time.p50(), None);
}

#[test]
fn test_mos_score_excellent() {
    let mut stats = TargetStats::new();

    // Low latency, no jitter, no loss = excellent quality
    for _ in 0..100 {
        stats.record(PingResult::Success(10_000));
    }

    let mos = stats.mos_score().unwrap() as f64 / 1000.0;
    assert!(
        mos >= 4.0,
        "MOS should be >= 4.0 for excellent quality, got {}",
        mos
    );
}

#[test]
fn test_mos_score_poor() {
    let mut stats = TargetStats::new();

    // High latency = poor quality
    for _ in 0..100 {
        stats.record(PingResult::Success(500_000));
    }

    let mos = stats.mos_score().unwrap() as f64 / 1000.0;
    assert!(
        mos < 3.5,
        "MOS should be < 3.5 for poor quality, got {}",
        mos
    );
}

#[test]
fn test_mos_score_none_without_successes() {
    let mut stats = TargetStats::new();
    stats.record(PingResult::Timeout);
    assert_eq!(stats.mos_score(), None);
    assert_eq!(stats.quality_grade(), None);
}

#[test]
fn test_quality_grade() {
    let mut stats = TargetStats::new();

    // Good quality
    for _ in 0..100 {
        stats.record(PingResult::Success(15_000));
    }

    let (grade, _desc) = stats.quality_grade().unwrap();
    assert!(
        grade == "A" || grade == "B",
        "Expected A or B grade, got {}",
        grade
    );
}

#[test]
fn test_quality_grade_bad_on_heavy_loss() {
    let mut stats = TargetStats::new();
    stats.record(PingResult::Success(10_000));
    for _ in 0..9 {
        stats.record(PingResult::Timeout);
    }
    let (grade, desc) = stats.quality_grade().unwrap();
    assert_eq!(grade, "F");
    assert_eq!(desc, "Bad");
}

#[test]
fn test_sparkline_data() {
    let mut stats = TargetStats::new();

    stats.record(PingResult::Success(10_000));
    stats.record(PingResult::Timeout);
    stats.record(PingResult::Success(20_000));

    let data = stats.sparkline_data();

    assert_eq!(data.len(), 3);
    assert_eq!(data[0], 10_000); // 10ms in microseconds
    assert_eq!(data[1], 0); // Timeout
    assert_eq!(data[2], 20_000); // 20ms in microseconds
}

#[test]
fn test_recent_latencies_newest_first() {
    let mut stats = TargetStats::new();
    stats.record(PingResult::Success(10_000));
    stats.record(PingResult::Timeout);
    stats.record(PingResult::Success(20_000));

    let recent = stats.recent_latencies(2);
    assert_eq!(recent, vec![Some(20_000), None]);
}

#[test]
fn test_packet_loss_calculation() {
    let mut stats = TargetStats::new();

    // 8 successes, 2 failures = 20% loss
    for _ in 0..8 {
        stats.record(PingResult::Success(10_000));
    }
    stats.record(PingResult::Timeout);
    stats.record(PingResult::Timeout);

    assert!((stats.packet_loss() as f64 / 100.0 - 20.0).abs() < 0.01);
}

#[test]
fn test_window_packet_loss() {
    let mut stats = TargetStats::new();
    for _ in 0..3 {
        stats.record(PingResult::Success(10_000));
    }
    stats.record(PingResult::Timeout);

    let (lost, pct) = stats.window_packet_loss();
    assert_eq!(lost, 1);
    assert_eq!(pct, 2500); // 25.00%

    let (lost_all, pct_all) = stats.all_time_packet_loss();
    assert_eq!(lost_all, 1);
    assert_eq!(pct_all, 2500);
}

#[test]
fn test_window_eviction_at_capacity() {
    let mut stats = TargetStats::new();
    stats.record(PingResult::Success(1)); // will be evicted
    for _ in 0..300 {
        stats.record(PingResult::Success(2));
    }
    assert_eq!(stats.window_count(), 300);
    assert_eq!(stats.min(), Some(2)); // the first sample left the window
    assert_eq!(stats.sent, 301); // but not the lifetime counters
    assert_eq!(stats.all_time.min, Some(1));
}

#[test]
fn test_counters_never_cross() {
    let mut stats = TargetStats::new();
    let outcomes = [true, true, false, true, false, false, true, true, true, false];
    for &ok in outcomes.iter() {
        if ok {
            stats.record(PingResult::Success(7_000));
        } else {
            stats.record(PingResult::Error(String::from("probe failed")));
        }
        assert!(stats.sent >= stats.received);
        assert!(stats.current_streak <= stats.longest_streak);
    }
    assert_eq!(stats.sent, 10);
    assert_eq!(stats.received, 6);
    assert_eq!(stats.current_streak, 0);
    assert_eq!(stats.longest_streak, 3);
}
