use ptop::ping::{is_network_error, PingerState, PingUpdate};
use ptop::stats::PingResult;

#[test]
fn test_is_network_error_patterns() {
    assert!(is_network_error("Network is unreachable"));
    assert!(is_network_error("No route to host"));
    assert!(is_network_error("sendto: network unreachable"));
    assert!(is_network_error("Host unreachable"));
    assert!(is_network_error("Invalid argument (os error 22)"));
    assert!(is_network_error("Bad file descriptor"));
    assert!(is_network_error("socket closed"));
    assert!(!is_network_error("connection refused"));
    assert!(!is_network_error(""));
}

#[test]
fn test_is_network_error_folds_case() {
    // exercises the lower-case folding: the raw message matches no pattern
    assert!(is_network_error("SOCKET operation failed"));
    assert!(is_network_error("NETWORK IS UNREACHABLE"));
}

#[test]
fn test_pinger_state_fresh() {
    let s = PingerState::new();
    assert!(s.needs_client());
    assert_eq!(s.seq_num, 0);
    assert_eq!(s.consecutive_errors, 0);
}

#[test]
fn test_pinger_timeout_resets_error_run() {
    let mut s = PingerState::new();
    s.on_client_created();
    let r1 = s.on_ping_error("weird failure".to_string());
    assert!(matches!(r1, PingResult::Error(_)));
    assert_eq!(s.consecutive_errors, 1);

    let r2 = s.on_ping_error("request timeout".to_string());
    assert!(matches!(r2, PingResult::Timeout));
    assert_eq!(s.consecutive_errors, 0);
    assert!(!s.needs_client());
}

#[test]
fn test_pinger_rebuilds_after_three_network_errors() {
    let mut s = PingerState::new();
    s.on_client_created();
    for _ in 0..2 {
        s.on_ping_error("Network is unreachable".to_string());
        assert!(!s.needs_client());
    }
    s.on_ping_error("Network is unreachable".to_string());
    assert!(s.needs_client()); // session dropped for rebuilding

    s.on_client_created();
    assert_eq!(s.consecutive_errors, 0);
    assert!(!s.needs_client());
}

#[test]
fn test_pinger_non_network_errors_keep_client() {
    let mut s = PingerState::new();
    s.on_client_created();
    for _ in 0..5 {
        s.on_ping_error("something odd".to_string());
    }
    assert_eq!(s.consecutive_errors, 5);
    assert!(!s.needs_client());
}

#[test]
fn test_pinger_success_resets_error_run() {
    let mut s = PingerState::new();
    s.on_client_created();
    s.on_ping_error("strange".to_string());
    let r = s.on_ping_success(12_345);
    assert!(matches!(r, PingResult::Success(12_345)));
    assert_eq!(s.consecutive_errors, 0);
}

#[test]
fn test_pinger_sequence_wraps_at_16_bits() {
    let mut s = PingerState::new();
    assert_eq!(s.next_seq(), 0);
    assert_eq!(s.next_seq(), 1);
    s.seq_num = u16::MAX;
    assert_eq!(s.next_seq(), u16::MAX);
    assert_eq!(s.next_seq(), 0);
}

#[test]
fn test_ping_update_carries_outcome() {
    let u = PingUpdate { target_idx: 3, result: PingResult::Success(9000) };
    assert_eq!(u.target_idx, 3);
    assert!(matches!(u.result, PingResult::Success(9000)));
}
