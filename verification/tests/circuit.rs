use vrift::circuit::{registration_root, CircuitBreaker, DEFAULT_RECOVERY_DELAY, DEFAULT_THRESHOLD};

#[test]
fn test_breaker_trips_and_recovers() {
    let mut b = CircuitBreaker::new(DEFAULT_THRESHOLD, DEFAULT_RECOVERY_DELAY);
    assert_eq!((DEFAULT_THRESHOLD, DEFAULT_RECOVERY_DELAY), (5, 30));
    assert!(b.allow_call(100));
    for t in 0..4 {
        assert!(!b.on_failure(100 + t));
    }
    assert_eq!(b.failed_count, 4);
    assert!(b.on_failure(104));
    assert!(b.tripped);
    assert_eq!(b.trip_time, 104);
    // a further failure does not trip again or move the trip time
    assert!(!b.on_failure(105));
    assert_eq!(b.trip_time, 104);
    assert!(!b.allow_call(104));
    assert!(!b.allow_call(133));
    assert!(b.tripped);
    assert!(b.allow_call(134));
    assert!(!b.tripped);
    assert_eq!(b.failed_count, 0);
}

#[test]
fn test_breaker_success_resets_count() {
    let mut b = CircuitBreaker::new(3, 10);
    b.on_failure(1);
    b.on_failure(2);
    b.on_success();
    assert_eq!(b.failed_count, 0);
    assert!(!b.on_failure(3));
    assert!(!b.on_failure(4));
    assert!(b.on_failure(5));
    // a threshold of 0 trips at the first failure
    let mut z = CircuitBreaker::new(0, 10);
    assert!(z.on_failure(7));
}

#[test]
fn test_registration_root() {
    assert_eq!(registration_root(Some("/explicit"), Some("/p/.vrift/manifest.lmdb")), "/explicit");
    assert_eq!(registration_root(None, Some("/p/.vrift/manifest.lmdb")), "/p");
    assert_eq!(registration_root(None, Some("/p/manifest.lmdb")), "/p");
    assert_eq!(registration_root(None, Some("manifest.lmdb")), "");
    assert_eq!(registration_root(None, Some("/")), "/");
    assert_eq!(registration_root(None, None), "");
}
