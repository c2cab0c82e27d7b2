use anchorkit::{ErrorCode, RateLimitConfig, RateLimiter};

const ADMIN: &str = "GADMINAAAAAAAAAAAAAAAAAAAAAAAAAAAAAAAAAAAAAAAAAAAAAAAAAA";
const ATTESTOR: &str = "GATTESTORAAAAAAAAAAAAAAAAAAAAAAAAAAAAAAAAAAAAAAAAAAAAAAA";
const OTHER: &str = "GOTHERAAAAAAAAAAAAAAAAAAAAAAAAAAAAAAAAAAAAAAAAAAAAAAAAAA";

#[test]
fn test_rate_limit_under_limit() {
    let mut limiter = RateLimiter::new();
    let ledger = 0;
    // Set global config with limit of 10
    limiter.update_config(ADMIN, RateLimitConfig { max_submissions: 10, window_length: 100 }, None).unwrap();

    let result = limiter.check_and_increment(ATTESTOR, ledger);
    assert!(result.is_ok());

    let state = limiter.get_state(ATTESTOR, ledger);
    assert_eq!(state.submission_count, 1);
}

#[test]
fn test_rate_limit_at_limit() {
    let mut limiter = RateLimiter::new();
    limiter.update_config(ADMIN, RateLimitConfig { max_submissions: 2, window_length: 100 }, None).unwrap();

    assert!(limiter.check_and_increment(ATTESTOR, 0).is_ok());
    assert!(limiter.check_and_increment(ATTESTOR, 0).is_ok());

    let result = limiter.check_and_increment(ATTESTOR, 0);
    assert!(result.is_err());
    assert_eq!(result.unwrap_err().code, ErrorCode::RateLimitExceeded);
}

#[test]
fn test_rate_limit_over_limit() {
    let mut limiter = RateLimiter::new();
    limiter.update_config(ADMIN, RateLimitConfig { max_submissions: 1, window_length: 100 }, None).unwrap();

    assert!(limiter.check_and_increment(ATTESTOR, 0).is_ok());

    let result = limiter.check_and_increment(ATTESTOR, 0);
    assert!(result.is_err());
    assert_eq!(result.unwrap_err().code, ErrorCode::RateLimitExceeded);
}

#[test]
fn test_rate_limit_window_reset() {
    let mut limiter = RateLimiter::new();
    limiter.update_config(ADMIN, RateLimitConfig { max_submissions: 1, window_length: 10 }, None).unwrap();

    // First call succeeds, count = 1
    assert!(limiter.check_and_increment(ATTESTOR, 0).is_ok());
    // Second call hits limit, count stays at 1
    assert!(limiter.check_and_increment(ATTESTOR, 0).is_err());

    let state = limiter.get_state(ATTESTOR, 0);
    assert_eq!(state.submission_count, 1);
    assert_eq!(state.total_requests, 2);
}

#[test]
fn test_rate_limit_config_update() {
    let mut limiter = RateLimiter::new();
    let new_config = RateLimitConfig { max_submissions: 20, window_length: 200 };

    let result = limiter.update_config(ADMIN, new_config, None);
    assert!(result.is_ok());

    let config = limiter.get_config();
    assert_eq!(config.max_submissions, 20);
    assert_eq!(config.window_length, 200);
}

#[test]
fn test_rate_limit_default_config() {
    let limiter = RateLimiter::new();
    let config = limiter.get_config();
    assert_eq!(config.max_submissions, 10);
    assert_eq!(config.window_length, 100);
}

#[test]
fn test_per_attestor_override_takes_precedence() {
    let mut limiter = RateLimiter::new();
    // Global: limit 1
    limiter.update_config(ADMIN, RateLimitConfig { max_submissions: 1, window_length: 100 }, None).unwrap();
    // Per-attestor override: limit 5
    limiter.update_config(ADMIN, RateLimitConfig { max_submissions: 5, window_length: 100 }, Some(ATTESTOR)).unwrap();

    // Should succeed 5 times (override), not just 1 (global)
    for _ in 0..5 {
        assert!(limiter.check_and_increment(ATTESTOR, 0).is_ok());
    }
    // 6th should fail
    assert!(limiter.check_and_increment(ATTESTOR, 0).is_err());
}

#[test]
fn test_fallback_to_global_when_no_override() {
    let mut limiter = RateLimiter::new();
    // Global: limit 2, no per-attestor override
    limiter.update_config(ADMIN, RateLimitConfig { max_submissions: 2, window_length: 100 }, None).unwrap();

    assert!(limiter.check_and_increment(ATTESTOR, 0).is_ok());
    assert!(limiter.check_and_increment(ATTESTOR, 0).is_ok());
    // 3rd exceeds global limit
    assert!(limiter.check_and_increment(ATTESTOR, 0).is_err());
}

#[test]
fn test_override_does_not_affect_other_attestors() {
    let mut limiter = RateLimiter::new();
    let high_volume = ATTESTOR;
    let normal = OTHER;
    // Global: limit 1
    limiter.update_config(ADMIN, RateLimitConfig { max_submissions: 1, window_length: 100 }, None).unwrap();
    // Override only for high_volume
    limiter.update_config(ADMIN, RateLimitConfig { max_submissions: 10, window_length: 100 }, Some(high_volume)).unwrap();

    // high_volume can submit 10 times
    for _ in 0..10 {
        assert!(limiter.check_and_increment(high_volume, 0).is_ok());
    }

    // normal attestor is still capped at 1
    assert!(limiter.check_and_increment(normal, 0).is_ok());
    assert!(limiter.check_and_increment(normal, 0).is_err());
}

// ── further cases ────────────────────────────────────────────────────────────

#[test]
fn window_restarts_after_window_length_ledgers() {
    let mut limiter = RateLimiter::new();
    limiter.update_config(ADMIN, RateLimitConfig { max_submissions: 1, window_length: 10 }, None).unwrap();
    assert!(limiter.check_and_increment(ATTESTOR, 100).is_ok());
    assert!(limiter.check_and_increment(ATTESTOR, 109).is_err());
    assert!(limiter.check_and_increment(ATTESTOR, 110).is_ok());
    let state = limiter.get_state(ATTESTOR, 110);
    assert_eq!(state.window_start_ledger, 110);
    assert_eq!(state.submission_count, 1);
    assert_eq!(state.total_requests, 3);
}

#[test]
fn fresh_state_and_effective_config() {
    let mut limiter = RateLimiter::new();
    let fresh = limiter.get_state(ATTESTOR, 77);
    assert_eq!((fresh.submission_count, fresh.window_start_ledger, fresh.total_requests), (0, 77, 0));
    let over = RateLimitConfig { max_submissions: 3, window_length: 5 };
    limiter.update_config(ADMIN, over, Some(ATTESTOR)).unwrap();
    assert_eq!(limiter.get_effective_config(ATTESTOR), over);
    assert_eq!(limiter.get_effective_config(OTHER), limiter.get_config());
    // An override leaves the global configuration as it was.
    assert_eq!(limiter.get_config(), RateLimitConfig { max_submissions: 10, window_length: 100 });
}

#[test]
fn zero_limit_refuses_everything_but_counts_requests() {
    let mut limiter = RateLimiter::new();
    limiter.update_config(ADMIN, RateLimitConfig { max_submissions: 0, window_length: 0 }, None).unwrap();
    assert!(limiter.check_and_increment(ATTESTOR, 5).is_err());
    assert!(limiter.check_and_increment(ATTESTOR, 6).is_err());
    assert_eq!(limiter.get_state(ATTESTOR, 6).total_requests, 2);
    assert_eq!(limiter.get_state(ATTESTOR, 6).submission_count, 0);
}
