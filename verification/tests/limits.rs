use eks::error::AppError;
use eks::limits::{check_download_limit, check_limits, check_limits_now, LoggedEvent, RateLimit, RateLimits};

const NOW: i64 = 1_700_000_000_000_000;
const SECOND: i64 = 1_000_000;
const MINUTE: i64 = 60 * SECOND;

fn limits(downloads: usize, events: usize, events_total: usize, window: i64) -> Option<RateLimits> {
    Some(RateLimits {
        downloads: RateLimit { max: downloads, window },
        events: RateLimit { max: events, window },
        events_total,
    })
}

/// `count` events that all happened `age` ago.
fn log_of(count: usize, age: i64) -> Vec<LoggedEvent> {
    (0..count).map(|_| LoggedEvent { created_at: NOW - age, is_download: false }).collect()
}

#[test]
fn absolute_event_cap_stops_every_write() {
    let log = log_of(3, 30 * 24 * 60 * MINUTE);
    for is_download in [false, true] {
        let err = check_limits(&limits(0, 0, 3, MINUTE), &log, NOW, is_download).unwrap_err();
        assert!(matches!(err, AppError::EventLimitReached { max: 3 }), "got {err:?}");
    }
}

#[test]
fn absolute_event_cap_allows_writes_below_the_maximum() {
    let log = log_of(3, 30 * 24 * 60 * MINUTE);
    assert!(check_limits(&limits(0, 0, 4, MINUTE), &log, NOW, false).is_ok());
}

#[test]
fn event_window_limit_blocks_a_burst_and_expires() {
    let recent = log_of(2, 30 * SECOND);
    let err = check_limits(&limits(0, 2, 0, MINUTE), &recent, NOW, false).unwrap_err();
    assert!(matches!(err, AppError::TooManyEvents { max: 2, window } if window == MINUTE), "got {err:?}");

    let expired = log_of(2, 61 * SECOND);
    assert!(check_limits(&limits(0, 2, 0, MINUTE), &expired, NOW, false).is_ok());
}

#[test]
fn download_limit_blocks_only_downloads() {
    let mut log = Vec::new();
    let l = limits(2, 0, 0, MINUTE);
    assert!(check_limits(&l, &log, NOW, true).is_ok());
    log.push(LoggedEvent { created_at: NOW, is_download: true });
    assert!(check_limits(&l, &log, NOW, true).is_ok());
    log.push(LoggedEvent { created_at: NOW, is_download: true });

    let err = check_limits(&l, &log, NOW, true).unwrap_err();
    assert!(matches!(err, AppError::TooManyDownloads { max: 2, .. }), "got {err:?}");

    assert!(check_limits(&l, &log, NOW, false).is_ok());
}

#[test]
fn without_limits_nothing_is_refused() {
    let log = log_of(1000, 0);
    assert!(check_limits(&None, &log, NOW, true).is_ok());
    assert!(check_limits_now(&None, &log, false).is_ok());
    assert!(check_download_limit(&None, &log).is_ok());
}

#[test]
fn a_window_counts_only_events_after_its_start() {
    let l = limits(0, 1, 0, MINUTE);
    let at_start = vec![LoggedEvent { created_at: NOW - MINUTE, is_download: false }];
    assert!(check_limits(&l, &at_start, NOW, false).is_ok());
    let inside = vec![LoggedEvent { created_at: NOW - MINUTE + 1, is_download: false }];
    assert!(check_limits(&l, &inside, NOW, false).is_err());
}

#[test]
fn limit_thresholds() {
    let limit = RateLimit { max: 3, window: MINUTE };
    assert!(!limit.is_reached(2));
    assert!(limit.is_reached(3));
    assert!(!RateLimit { max: 0, window: MINUTE }.is_reached(1_000));
    assert_eq!(limit.window_start(NOW), (NOW - MINUTE) as i128);
}
