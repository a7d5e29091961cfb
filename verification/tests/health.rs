use eks::health::{after_probe, DbHealth, HealthState, ProberWait, HEALTHY_INTERVAL_SECS};

#[test]
fn starts_healthy() {
    let health = DbHealth::default();
    assert!(health.is_healthy());
}

#[test]
fn mark_unavailable_then_healthy_round_trips() {
    let mut health = DbHealth::default();

    health.mark_unavailable("connection refused".to_string(), 1_000);
    assert!(!health.is_healthy());
    match health.snapshot() {
        HealthState::Unavailable { last_error, .. } => {
            assert_eq!(last_error, "connection refused");
        }
        HealthState::Healthy => panic!("expected unavailable"),
    }

    health.mark_healthy();
    assert!(health.is_healthy());
}

#[test]
fn repeated_unavailable_updates_error_but_keeps_since() {
    let mut health = DbHealth::default();
    health.mark_unavailable("first".to_string(), 1_000);
    let since_first = match health.snapshot() {
        HealthState::Unavailable { since, .. } => since,
        HealthState::Healthy => panic!("expected unavailable"),
    };

    health.mark_unavailable("second".to_string(), 2_000);
    match health.snapshot() {
        HealthState::Unavailable { since, last_error } => {
            assert_eq!(since, since_first, "outage start must be preserved");
            assert_eq!(last_error, "second");
        }
        HealthState::Healthy => panic!("expected unavailable"),
    }
}

#[test]
fn only_transitions_are_reported() {
    let mut health = DbHealth::new();
    assert!(!health.mark_healthy());
    assert!(health.mark_unavailable("down".to_string(), 5));
    assert!(!health.mark_unavailable("still down".to_string(), 6));
    assert!(health.mark_healthy());
}

#[test]
fn the_prober_backs_off_and_resets() {
    assert_eq!(after_probe(7, true), (0, ProberWait::Routine { secs: HEALTHY_INTERVAL_SECS }));
    assert_eq!(after_probe(0, false), (1, ProberWait::Backoff { secs: 1 }));
    assert_eq!(after_probe(1, false), (2, ProberWait::Backoff { secs: 5 }));
    assert_eq!(after_probe(2, false), (3, ProberWait::Backoff { secs: 15 }));
    assert_eq!(after_probe(9, false), (10, ProberWait::Backoff { secs: 30 }));
    assert_eq!(after_probe(usize::MAX, false), (usize::MAX, ProberWait::Backoff { secs: 30 }));
}
