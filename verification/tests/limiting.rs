use corsget::config::LimitTier;
use corsget::limit::{
    meter_chunk, meter_chunk_at, BandwidthError, BandwidthLimiter, MeteredError, ResultSizeGuard,
    Window, WindowState,
};

const SECOND: u128 = 1_000_000_000;

fn tier(window: u64, max: u64) -> LimitTier {
    LimitTier { window, max }
}

#[test]
fn result_guard_no_cap_when_zero() {
    let mut g = ResultSizeGuard::new(0);
    assert!(!g.would_exceed(u64::MAX));
    assert!(g.charge(1_000_000).is_ok());
}

#[test]
fn result_guard_rejects_oversize_content_length() {
    let g = ResultSizeGuard::new(100);
    assert!(g.would_exceed(101));
    assert!(!g.would_exceed(100));
}

#[test]
fn result_guard_aborts_mid_stream() {
    let mut g = ResultSizeGuard::new(10);
    assert!(g.charge(5).is_ok());
    assert!(g.charge(5).is_ok());
    // 11th byte exceeds.
    let err = g.charge(1).unwrap_err();
    assert_eq!(err, BandwidthError::ResultExceeded { used: 11, max: 10 });
}

#[test]
fn connection_tier_charges_and_exceeds() {
    let mut limiter = BandwidthLimiter::new(&[tier(60, 100)]);
    assert!(limiter.charge("k", 60).is_ok());
    assert!(limiter.charge("k", 40).is_ok());
    let err = limiter.charge("k", 1).unwrap_err();
    assert_eq!(err, BandwidthError::ConnectionExceeded { max: 100, secs: 60 });
}

#[test]
fn multiple_tiers_all_enforced() {
    let mut limiter = BandwidthLimiter::new(&[tier(1, 5), tier(60, 1000)]);
    // 5 req in 1s window ok, under 1000/60s.
    for _ in 0..5 {
        assert!(limiter.charge("k", 1).is_ok());
    }
    // 6th exceeds the 1s/5 tier.
    assert!(limiter.charge("k", 1).is_err());
}

#[test]
fn keys_are_isolated() {
    let mut limiter = BandwidthLimiter::new(&[tier(60, 10)]);
    assert!(limiter.charge("a", 10).is_ok());
    // Different key has its own bucket.
    assert!(limiter.charge("b", 10).is_ok());
    assert!(limiter.charge("a", 1).is_err());
}

#[test]
fn exceeded_guard_stays_exceeded() {
    let mut g = ResultSizeGuard::new(10);
    assert!(g.charge(11).is_err());
    assert_eq!(g.charge(0), Err(BandwidthError::ResultExceeded { used: 11, max: 10 }));
    assert_eq!(
        g.charge(u64::MAX),
        Err(BandwidthError::ResultExceeded { used: u64::MAX, max: 10 })
    );
}

#[test]
fn guard_lets_a_body_of_the_cap_through() {
    let mut g = ResultSizeGuard::new(u64::MAX);
    assert!(g.charge(u64::MAX).is_ok());
    assert!(g.charge(u64::MAX).is_ok());
    assert!(!g.would_exceed(u64::MAX));
}

#[test]
fn window_resets_when_it_is_over() {
    let window = Window { secs: 2, max: 10 };
    let mut state = WindowState::new(5 * SECOND);
    assert!(state.charge(10, window, 5 * SECOND).is_ok());
    assert!(state.charge(1, window, 7 * SECOND - 1).is_err());
    assert_eq!((state.used, state.window_start), (10, 5 * SECOND));
    assert!(state.charge(1, window, 7 * SECOND).is_ok());
    assert_eq!((state.used, state.window_start), (1, 7 * SECOND));
}

#[test]
fn refused_charge_is_not_counted() {
    let window = Window { secs: 60, max: 10 };
    let mut state = WindowState::new(0);
    assert_eq!(
        state.charge(11, window, 0),
        Err(BandwidthError::ConnectionExceeded { max: 10, secs: 60 })
    );
    assert_eq!(state.used, 0);
    assert!(state.charge(10, window, 0).is_ok());
    assert!(state.charge(u64::MAX, window, 0).is_err());
    assert_eq!(state.used, 10);
}

#[test]
fn tiers_before_a_full_one_are_charged() {
    let mut limiter = BandwidthLimiter::new(&[tier(60, 10), tier(60, 4), tier(60, 10)]);
    assert_eq!(
        limiter.charge_at("k", 5, 0),
        Err(BandwidthError::ConnectionExceeded { max: 4, secs: 60 })
    );
    // The first tier has counted the 5 bytes.
    assert_eq!(
        limiter.charge_at("k", 6, 0),
        Err(BandwidthError::ConnectionExceeded { max: 10, secs: 60 })
    );
    assert!(limiter.charge_at("k", 4, 0).is_ok());
}

#[test]
fn windows_of_a_limiter_reset() {
    let mut limiter = BandwidthLimiter::new(&[tier(1, 5)]);
    assert!(limiter.charge_at("k", 5, 10).is_ok());
    assert!(limiter.charge_at("k", 1, SECOND).is_err());
    assert!(limiter.charge_at("k", 5, SECOND + 10).is_ok());
}

#[test]
fn limiter_without_tiers_allows_all() {
    let mut limiter = BandwidthLimiter::new(&[]);
    assert!(limiter.charge("k", u64::MAX).is_ok());
}

#[test]
fn connection_limit_never_stops_a_stream() {
    let mut guard = ResultSizeGuard::new(0);
    let mut limiter = BandwidthLimiter::new(&[tier(60, 10)]);
    assert_eq!(meter_chunk(&mut guard, &mut limiter, "k", 10).unwrap(), None);
    assert_eq!(
        meter_chunk(&mut guard, &mut limiter, "k", 1).unwrap(),
        Some(BandwidthError::ConnectionExceeded { max: 10, secs: 60 })
    );
}

#[test]
fn result_cap_stops_a_stream_before_the_tiers_are_charged() {
    let mut guard = ResultSizeGuard::new(5);
    let mut limiter = BandwidthLimiter::new(&[tier(60, 10)]);
    let err = meter_chunk_at(&mut guard, &mut limiter, "k", 6, 0).unwrap_err();
    assert!(matches!(err, MeteredError::ResultExceeded { used: 6, max: 5 }));
    assert!(limiter.charge_at("k", 10, 0).is_ok());
}

#[test]
fn errors_in_words() {
    let result = BandwidthError::ResultExceeded { used: 11, max: 10 };
    assert_eq!(result.message(), "result size cap exceeded (11 > 10 bytes)");
    let tier = BandwidthError::ConnectionExceeded { max: 4294967296, secs: 60 };
    assert_eq!(tier.message(), "bandwidth limit exceeded for tier (4294967296 bytes / 60s)");
    assert_eq!(
        MeteredError::from(result).message(),
        "result size cap exceeded (11 > 10 bytes)"
    );
    assert_eq!(
        MeteredError::from(tier).message(),
        "bandwidth limit exceeded for tier (4294967296 bytes / 60s)"
    );
    assert_eq!(
        MeteredError::Upstream("reset".to_string()).message(),
        "upstream stream error: reset"
    );
}
