use midden::config::RateLimitConfig;
use midden::error::AppError;
use midden::rate_limit::{saturating_difference, to_signed_seconds, RateLimiter};

#[test]
fn expired_buckets_are_evicted_instead_of_accumulating() {
    let mut limiter = RateLimiter::default();
    let config = RateLimitConfig { requests: 5, window_seconds: 1, enabled: true };
    let now = 1_700_000_000;
    for index in 0..50 {
        limiter
            .check("upload", &format!("ip:198.51.100.{index}"), Some(&config), now)
            .unwrap();
    }
    assert_eq!(limiter.tracked_buckets(), 50);

    // An hour later all buckets are stale; take one more request.
    limiter.check("upload", "ip:203.0.113.1", Some(&config), now + 3600).unwrap();

    assert_eq!(
        limiter.tracked_buckets(),
        1,
        "stale buckets must not accumulate for attacker-supplied identities"
    );
}

#[test]
fn enforces_enabled_limit() {
    let mut limiter = RateLimiter::default();
    let config = RateLimitConfig { requests: 1, window_seconds: 60, enabled: true };
    assert!(limiter.check("upload", "ip", Some(&config), 100).is_ok());
    assert!(limiter.check("upload", "ip", Some(&config), 100).is_err());
    assert!(limiter.check("upload", "other", Some(&config), 100).is_ok());
}

#[test]
fn a_window_starts_anew_when_it_is_over() {
    let mut limiter = RateLimiter::new();
    let config = RateLimitConfig { requests: 2, window_seconds: 60, enabled: true };
    assert_eq!(limiter.check("a", "x", Some(&config), 100), Ok(()));
    assert_eq!(limiter.check("a", "x", Some(&config), 159), Ok(()));
    assert_eq!(limiter.check("a", "x", Some(&config), 159), Err(AppError::TooManyRequests));
    assert_eq!(limiter.check("a", "x", Some(&config), 160), Ok(()));
    assert_eq!(limiter.tracked_buckets(), 1);
}

#[test]
fn limits_that_are_off_or_shut() {
    let mut limiter = RateLimiter::new();
    let off = RateLimitConfig { requests: 0, window_seconds: 0, enabled: false };
    assert_eq!(limiter.check("a", "x", Some(&off), 0), Ok(()));
    assert_eq!(limiter.check("a", "x", None, 0), Ok(()));
    let shut = RateLimitConfig { requests: 0, window_seconds: 60, enabled: true };
    assert_eq!(limiter.check("a", "x", Some(&shut), 0), Err(AppError::TooManyRequests));
    let no_window = RateLimitConfig { requests: 9, window_seconds: 0, enabled: true };
    assert_eq!(limiter.check("a", "x", Some(&no_window), 0), Err(AppError::TooManyRequests));
    assert_eq!(limiter.tracked_buckets(), 0);
}

#[test]
fn actions_are_counted_apart() {
    let mut limiter = RateLimiter::new();
    let config = RateLimitConfig { requests: 1, window_seconds: 60, enabled: true };
    assert_eq!(limiter.check("a", "x", Some(&config), 0), Ok(()));
    assert_eq!(limiter.check("b", "x", Some(&config), 0), Ok(()));
    assert_eq!(limiter.check("b", "x", Some(&config), 0), Err(AppError::TooManyRequests));
    assert_eq!(limiter.tracked_buckets(), 2);
}

#[test]
fn a_shorter_window_of_another_action_resets_nothing() {
    let mut limiter = RateLimiter::default();
    let login = RateLimitConfig { requests: 1, window_seconds: 300, enabled: true };
    let upload = RateLimitConfig { requests: 5, window_seconds: 1, enabled: true };
    assert_eq!(limiter.check("login", "a", Some(&login), 1000), Ok(()));
    assert_eq!(limiter.check("upload_file", "b", Some(&upload), 1010), Ok(()));
    assert_eq!(limiter.tracked_buckets(), 2);
    assert_eq!(
        limiter.check("login", "a", Some(&login), 1020),
        Err(AppError::TooManyRequests)
    );
    // The window of the upload is over by then.
    assert_eq!(limiter.tracked_buckets(), 1);
    assert_eq!(limiter.check("login", "a", Some(&login), 1299), Err(AppError::TooManyRequests));
    assert_eq!(limiter.check("login", "a", Some(&login), 1300), Ok(()));
}

#[test]
fn a_request_is_held_to_the_window_of_the_day() {
    let mut limiter = RateLimiter::default();
    let limit = |window_seconds: u64| RateLimitConfig { requests: 1, window_seconds, enabled: true };
    assert_eq!(limiter.check("a", "x", Some(&limit(10)), 0), Ok(()));
    assert_eq!(limiter.check("a", "x", Some(&limit(60)), 20), Err(AppError::TooManyRequests));
    // The longer window is the one that other actions leave alone from now on.
    assert_eq!(limiter.check("b", "x", Some(&limit(1)), 40), Ok(()));
    assert_eq!(limiter.check("a", "x", Some(&limit(60)), 59), Err(AppError::TooManyRequests));
    assert_eq!(limiter.check("a", "x", Some(&limit(10)), 59), Ok(()));
    assert_eq!(limiter.check("c", "x", Some(&limit(u64::MAX)), 0), Ok(()));
    assert_eq!(
        limiter.check("c", "x", Some(&limit(u64::MAX)), 1_000_000_000),
        Err(AppError::TooManyRequests)
    );
}

#[test]
fn moments_are_kept_in_range() {
    assert_eq!(saturating_difference(5, 3), 2);
    assert_eq!(saturating_difference(i64::MAX, -1), i64::MAX);
    assert_eq!(saturating_difference(i64::MIN, 1), i64::MIN);
    assert_eq!(to_signed_seconds(60), 60);
    assert_eq!(to_signed_seconds(u64::MAX), i64::MAX);
}
