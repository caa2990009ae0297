use ptop::replay::{
    apply_event, build_replay_targets, PingEvent, ReplayError, ReplayState, MAX_REPLAY_EVENTS,
};

fn ev(ts: u64, idx: usize, name: &str, addr: &str, lat: Option<u64>) -> PingEvent {
    PingEvent {
        timestamp_us: ts,
        target_idx: idx,
        target_name: name.to_string(),
        target_addr: addr.to_string(),
        latency_us: lat,
    }
}

#[test]
fn test_replay_empty_log_fails() {
    let r = ReplayState::new(Vec::new(), 1000, 0);
    assert!(matches!(r, Err(ReplayError::EmptyLog)));
    assert_eq!(ReplayError::EmptyLog.message(), "log file is empty");
}

#[test]
fn test_replay_cap() {
    let mut events = Vec::with_capacity(MAX_REPLAY_EVENTS + 5);
    for i in 0..(MAX_REPLAY_EVENTS + 5) {
        events.push(ev(i as u64, 0, "", "", None));
    }
    let replay = ReplayState::new(events, 1000, 0).unwrap();
    assert_eq!(replay.total_events(), MAX_REPLAY_EVENTS);
}

#[test]
fn test_replay_speed_clamped() {
    let events = vec![ev(0, 0, "a", "1.1.1.1", Some(5))];
    let slow = ReplayState::new(events, 0, 0).unwrap();
    assert_eq!(slow.speed(), 100); // 0.1x floor

    let events = vec![ev(0, 0, "a", "1.1.1.1", Some(5))];
    let fast = ReplayState::new(events, 10_000_000, 0).unwrap();
    assert_eq!(fast.speed(), 100_000); // 100x ceiling
}

#[test]
fn test_replay_speed_controls() {
    let events = vec![ev(0, 0, "a", "1.1.1.1", Some(5))];
    let mut replay = ReplayState::new(events, 1000, 0).unwrap();
    replay.speed_up();
    assert_eq!(replay.speed(), 2000);
    for _ in 0..10 {
        replay.speed_up();
    }
    assert_eq!(replay.speed(), 100_000);
    for _ in 0..20 {
        replay.slow_down();
    }
    assert_eq!(replay.speed(), 100);
}

#[test]
fn test_replay_poll_monotone() {
    let events = vec![
        ev(5_000_000, 0, "a", "1.1.1.1", Some(1000)),
        ev(5_100_000, 0, "a", "1.1.1.1", Some(2000)),
        ev(5_200_000, 0, "a", "1.1.1.1", None),
    ];
    let mut replay = ReplayState::new(events, 1000, 1_000_000).unwrap();

    // at T1, virtual time reaches the first two events only
    let first = replay.poll_events(1_150_000);
    assert_eq!(first.len(), 2);
    assert_eq!(first[0].timestamp_us, 5_000_000);
    assert_eq!(first[1].timestamp_us, 5_100_000);
    assert!(!replay.finished);

    // at T2 > T1, the cumulative count only grows, never re-delivers
    let second = replay.poll_events(1_250_000);
    assert_eq!(second.len(), 1);
    assert_eq!(second[0].timestamp_us, 5_200_000);
    assert!(replay.finished);

    // a finished replay hands out nothing more
    let third = replay.poll_events(2_000_000);
    assert!(third.is_empty());
}

#[test]
fn test_replay_never_delivers_future_events() {
    let events = vec![
        ev(5_000_000, 0, "a", "1.1.1.1", Some(1000)),
        ev(9_000_000, 0, "a", "1.1.1.1", Some(2000)),
    ];
    let mut replay = ReplayState::new(events, 1000, 0).unwrap();
    // virtual time is 5_000_000 + 10_000: the second event is in the future
    let got = replay.poll_events(10_000);
    assert_eq!(got.len(), 1);
    for e in &got {
        assert!(e.timestamp_us <= 5_010_000);
    }
}

#[test]
fn test_replay_pause_resume_no_skip_no_dup() {
    let events = vec![
        ev(10_000_000, 0, "a", "1.1.1.1", Some(1000)),
        ev(10_100_000, 0, "a", "1.1.1.1", Some(2000)),
        ev(10_200_000, 0, "a", "1.1.1.1", Some(3000)),
    ];
    let mut replay = ReplayState::new(events, 1000, 0).unwrap();

    let mut seen: Vec<u64> = Vec::new();
    for e in replay.poll_events(50_000) {
        seen.push(e.timestamp_us);
    }
    assert_eq!(seen, vec![10_000_000]);

    // pause: a long wall-clock gap must not advance the replay
    replay.toggle_pause(60_000);
    assert!(replay.paused);
    assert!(replay.poll_events(5_000_000).is_empty());

    // resume re-anchors at the cursor: the next events come in order,
    // none skipped, none repeated
    replay.toggle_pause(1_000_000);
    assert!(!replay.paused);
    for e in replay.poll_events(1_000_000) {
        seen.push(e.timestamp_us);
    }
    assert_eq!(seen, vec![10_000_000, 10_100_000]);

    for e in replay.poll_events(1_100_000) {
        seen.push(e.timestamp_us);
    }
    assert_eq!(seen, vec![10_000_000, 10_100_000, 10_200_000]);
    assert!(replay.finished);
}

#[test]
fn test_replay_progress_and_log_time() {
    let events = vec![
        ev(1_000_000, 0, "a", "1.1.1.1", Some(1)),
        ev(2_000_000, 0, "a", "1.1.1.1", Some(2)),
        ev(3_000_000, 0, "a", "1.1.1.1", Some(3)),
        ev(4_000_000, 0, "a", "1.1.1.1", Some(4)),
    ];
    let mut replay = ReplayState::new(events, 1000, 0).unwrap();
    assert_eq!(replay.progress(), 0);
    assert_eq!(replay.current_event(), 0);
    assert_eq!(replay.current_log_time(), Some(1_000_000));
    assert_eq!(replay.log_duration(), 3_000_000);

    let got = replay.poll_events(1_000_000);
    assert_eq!(got.len(), 2);
    assert_eq!(replay.progress(), 50);
    assert_eq!(replay.current_log_time(), Some(3_000_000));
}

#[test]
fn test_replay_skip_forward_and_backward() {
    let events = vec![
        ev(1_000_000, 0, "a", "1.1.1.1", Some(1)),
        ev(2_000_000, 0, "a", "1.1.1.1", Some(2)),
        ev(3_000_000, 0, "a", "1.1.1.1", Some(3)),
    ];
    let mut replay = ReplayState::new(events, 1000, 0).unwrap();

    replay.skip_forward(100, 777);
    assert_eq!(replay.current_event(), 2); // clamped to the last event
    assert_eq!(replay.current_log_time(), Some(3_000_000));

    replay.skip_backward(1, 888);
    assert_eq!(replay.current_event(), 1);
    assert!(!replay.finished);

    replay.skip_backward(100, 999);
    assert_eq!(replay.current_event(), 0); // clamped to the first event
}

#[test]
fn test_build_replay_targets_first_seen_order() {
    let events = vec![
        ev(1, 0, "Gateway", "192.168.1.1", Some(5)),
        ev(2, 1, "Cloudflare", "1.1.1.1", Some(6)),
        ev(3, 0, "Gateway", "192.168.1.1", None),
        ev(4, 2, "Google", "8.8.8.8", Some(7)),
        ev(5, 1, "Cloudflare", "1.1.1.1", Some(8)),
    ];
    let (targets, stats) = build_replay_targets(&events);
    assert_eq!(targets.len(), 3);
    assert_eq!(stats.len(), 3);
    assert_eq!(targets[0].name, "Gateway");
    assert_eq!(targets[1].name, "Cloudflare");
    assert_eq!(targets[2].name, "Google");
    for s in &stats {
        assert_eq!(s.sent, 0);
    }
}

#[test]
fn test_apply_event_matches_by_address() {
    let events = vec![
        ev(1, 0, "Gateway", "192.168.1.1", Some(5000)),
        ev(2, 1, "Cloudflare", "1.1.1.1", None),
    ];
    let (targets, mut stats) = build_replay_targets(&events);

    apply_event(&events[0], &targets, &mut stats);
    apply_event(&events[1], &targets, &mut stats);

    assert_eq!(stats[0].sent, 1);
    assert_eq!(stats[0].received, 1);
    assert_eq!(stats[0].current(), Some(5000));
    assert_eq!(stats[1].sent, 1);
    assert_eq!(stats[1].received, 0);

    // an event whose address no target carries is dropped
    let stray = ev(3, 9, "Unknown", "10.0.0.1", Some(1));
    apply_event(&stray, &targets, &mut stats);
    assert_eq!(stats[0].sent, 1);
    assert_eq!(stats[1].sent, 1);
}
