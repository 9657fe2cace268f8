//! The rate limiter.

use mq_http::rate_limit::RateLimiter;

const SECOND: u128 = 1_000_000_000;

#[test]
fn test_rate_limiter_same_window() {
    let cases = [(5, 5, 0), (5, 10, 5), (1, 3, 2), (10, 3, 0)];
    for (limit, requests, expected_rejections) in cases {
        let mut limiter = RateLimiter::new(limit);
        let rejections = (0..requests)
            .filter(|_| !limiter.allow("127.0.0.1"))
            .count() as u32;
        assert_eq!(rejections, expected_rejections);
    }
}

#[test]
fn test_rate_limiter_different_ips_are_independent() {
    let mut limiter = RateLimiter::new(2);
    assert!(limiter.allow("1.2.3.4"));
    assert!(limiter.allow("1.2.3.4"));
    assert!(!limiter.allow("1.2.3.4")); // 3rd request from same IP → blocked

    // Different IP has its own fresh window
    assert!(limiter.allow("5.6.7.8"));
    assert!(limiter.allow("5.6.7.8"));
    assert!(!limiter.allow("5.6.7.8"));
}

#[test]
fn test_rate_limiter_window_resets_after_one_second() {
    let mut limiter = RateLimiter::new(1);
    assert!(limiter.allow("127.0.0.1"));
    assert!(!limiter.allow("127.0.0.1")); // blocked in same window

    // Long after the window began
    assert!(limiter.allow_at("127.0.0.1", 60 * SECOND)); // new window → allowed
}

#[test]
fn window_ends_after_exactly_one_second() {
    let mut limiter = RateLimiter::new(1);
    assert_eq!(limiter.limit_per_second, 1);
    assert!(limiter.allow_at("a", 5));
    assert!(!limiter.allow_at("a", 5 + SECOND - 1));
    assert!(limiter.allow_at("a", 5 + SECOND));
    assert!(!limiter.allow_at("a", 5 + SECOND));
}

#[test]
fn refused_requests_do_not_extend_the_window() {
    let mut limiter = RateLimiter::new(1);
    assert!(limiter.allow_at("a", 0));
    for i in 1..10 {
        assert!(!limiter.allow_at("a", i * SECOND / 10));
    }
    assert!(limiter.allow_at("a", SECOND));
}

#[test]
fn limit_of_zero_lets_nothing_through() {
    let mut limiter = RateLimiter::new(0);
    assert!(!limiter.allow_at("a", 0));
    assert!(!limiter.allow_at("a", SECOND));
    assert!(!limiter.allow_at("a", 5 * SECOND));
}

#[test]
fn pruning_a_large_table_changes_no_decision() {
    let mut limiter = RateLimiter::new(1);
    for i in 0..10_001 {
        assert!(limiter.allow_at(&format!("old {i}"), 0));
    }
    assert!(limiter.allow_at("young", 2 * SECOND - 1));
    assert!(limiter.allow_at("new", 2 * SECOND));
    assert!(!limiter.allow_at("young", 2 * SECOND));
    assert!(limiter.allow_at("old 7", 2 * SECOND));
    assert!(!limiter.allow_at("old 7", 2 * SECOND));
}

#[test]
fn a_clock_that_goes_back_keeps_the_window() {
    let mut limiter = RateLimiter::new(1);
    assert!(limiter.allow_at("a", 10 * SECOND));
    assert!(!limiter.allow_at("a", 0));
}
