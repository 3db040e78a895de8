use zsh_tool_exec::circuit::{CircuitBreaker, CircuitState};

const SECOND: u64 = 1_000_000;

#[test]
fn test_initial_state_closed() {
    let cb = CircuitBreaker::new(3, 300, 3600);
    assert_eq!(cb.state, CircuitState::Closed);
}

#[test]
fn test_allows_when_closed() {
    let mut cb = CircuitBreaker::new(3, 300, 3600);
    let (allowed, msg) = cb.should_allow();
    assert!(allowed);
    assert!(msg.is_none());
}

#[test]
fn test_opens_after_threshold() {
    let mut cb = CircuitBreaker::new(3, 300, 3600);
    cb.record_timeout("hash1");
    cb.record_timeout("hash2");
    assert_eq!(cb.state, CircuitState::Closed);
    cb.record_timeout("hash3");
    assert_eq!(cb.state, CircuitState::Open);
}

#[test]
fn test_blocks_when_open() {
    let mut cb = CircuitBreaker::new(3, 300, 3600);
    for i in 0..3 {
        cb.record_timeout(&format!("hash{}", i));
    }
    let (allowed, msg) = cb.should_allow();
    assert!(!allowed);
    assert!(msg.unwrap().contains("NEVERHANG"));
}

#[test]
fn test_success_closes_half_open() {
    let mut cb = CircuitBreaker::new(3, 300, 3600);
    cb.state = CircuitState::HalfOpen;
    cb.record_success();
    assert_eq!(cb.state, CircuitState::Closed);
    assert!(cb.failures.is_empty());
}

#[test]
fn test_reset() {
    let mut cb = CircuitBreaker::new(3, 300, 3600);
    for i in 0..3 {
        cb.record_timeout(&format!("hash{}", i));
    }
    assert_eq!(cb.state, CircuitState::Open);
    cb.reset();
    assert_eq!(cb.state, CircuitState::Closed);
    assert!(cb.failures.is_empty());
}

#[test]
fn test_status_serializable() {
    let cb = CircuitBreaker::new(3, 300, 3600);
    let status = cb.get_status();
    assert_eq!(status.state, "closed");
    assert_eq!(status.recent_failures, 0);
    assert_eq!(status.failure_threshold, 3);
    assert_eq!(status.recovery_timeout, 300);
    assert_eq!(status.opened_at, None);
    assert_eq!(status.time_until_retry, None);
}

#[test]
fn breaker_opens_recovers_and_closes() {
    let mut cb = CircuitBreaker::new(3, 300, 3600);
    let start: u64 = 1_700_000_000 * SECOND;
    cb.record_timeout_at("a", start);
    cb.record_timeout_at("b", start + 10 * SECOND);
    assert_eq!(cb.should_allow_at(start + 11 * SECOND), (true, None));
    cb.record_timeout_at("c", start + 20 * SECOND);
    assert_eq!(cb.state, CircuitState::Open);
    assert_eq!(cb.opened_at, Some(start + 20 * SECOND));
    assert_eq!(
        cb.should_allow_at(start + 20 * SECOND + 1_500_000),
        (
            false,
            Some("NEVERHANG: Circuit OPEN due to 3 recent timeouts. Retry in 298s".to_string())
        )
    );
    assert_eq!(cb.should_allow_at(start + 320 * SECOND).0, false);
    assert_eq!(cb.state, CircuitState::Open);
    let status = cb.get_status_at(start + 120 * SECOND);
    assert_eq!(status.state, "open");
    assert_eq!(status.recent_failures, 3);
    assert_eq!(status.time_until_retry, Some(200));
    assert_eq!(
        cb.should_allow_at(start + 320 * SECOND + 1),
        (true, Some("NEVERHANG: Circuit half-open, testing recovery".to_string()))
    );
    assert_eq!(cb.state, CircuitState::HalfOpen);
    assert_eq!(cb.opened_at, None);
    assert_eq!(
        cb.should_allow_at(start + 321 * SECOND),
        (true, Some("NEVERHANG: Circuit half-open, monitoring".to_string()))
    );
    cb.record_success();
    assert_eq!(cb.state, CircuitState::Closed);
    assert!(cb.failures.is_empty());
    assert_eq!(cb.should_allow_at(start + 322 * SECOND), (true, None));
}

#[test]
fn timeouts_outside_the_window_are_forgotten() {
    let mut cb = CircuitBreaker::new(2, 30, 60);
    let start: u64 = 1_000 * SECOND;
    cb.record_timeout_at("a", start);
    cb.record_timeout_at("b", start + 60 * SECOND);
    assert_eq!(cb.state, CircuitState::Closed);
    assert_eq!(cb.failures, vec![(start + 60 * SECOND, "b".to_string())]);
    assert_eq!(cb.last_failure, Some(start + 60 * SECOND));
    cb.record_timeout_at("c", start + 119 * SECOND);
    assert_eq!(cb.state, CircuitState::Open);
    assert_eq!(cb.failures.len(), 2);
}

#[test]
fn timeout_on_probation_opens_again() {
    let mut cb = CircuitBreaker::new(2, 30, 600);
    cb.record_timeout_at("a", 10 * SECOND);
    cb.record_timeout_at("b", 11 * SECOND);
    assert!(cb.should_allow_at(42 * SECOND).0);
    assert_eq!(cb.state, CircuitState::HalfOpen);
    cb.record_timeout_at("c", 43 * SECOND);
    assert_eq!(cb.state, CircuitState::Open);
    assert_eq!(cb.opened_at, Some(43 * SECOND));
    assert!(!cb.should_allow_at(44 * SECOND).0);
}

#[test]
fn open_breaker_without_time_of_opening_refuses() {
    let mut cb = CircuitBreaker::new(3, 300, 3600);
    cb.state = CircuitState::Open;
    assert_eq!(cb.should_allow_at(5), (false, Some("NEVERHANG: Circuit OPEN".to_string())));
    assert_eq!(cb.state, CircuitState::Open);
}

#[test]
fn success_leaves_a_closed_or_open_breaker_alone() {
    let mut cb = CircuitBreaker::new(1, 300, 3600);
    cb.record_success();
    assert_eq!(cb.state, CircuitState::Closed);
    cb.record_timeout_at("a", 5 * SECOND);
    cb.record_success();
    assert_eq!(cb.state, CircuitState::Open);
    assert_eq!(cb.failures.len(), 1);
}

#[test]
fn state_names() {
    assert_eq!(CircuitState::Closed.to_string(), "closed");
    assert_eq!(CircuitState::Open.to_string(), "open");
    assert_eq!(CircuitState::HalfOpen.to_string(), "half_open");
}
