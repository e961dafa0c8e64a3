//! Limits on new and open tunnels.

use mc_tunnel::proxy::{Admission, Turnstile, RateLimiter, CONNECT_MAX_CONNS, CONNECT_MAX_CONN_RATE};

const SECOND: u64 = 1_000_000_000;

#[test]
fn rate_limiter_allows_a_burst_then_throttles_and_refills() {
    // capacity == per_sec == 4: a 4-token burst is allowed, the 5th is denied.
    let mut now: u64 = 5 * SECOND;
    let mut rl = RateLimiter::new(4, now);
    for _ in 0..4 {
        assert!(rl.allow(now), "burst tokens should be allowed");
    }
    assert!(!rl.allow(now), "over-burst should be denied");

    // After ~0.3s at 4 tokens/s, ~1 token has refilled.
    now += 300 * 1_000_000;
    assert!(rl.allow(now), "a token should have refilled");
    assert!(!rl.allow(now), "but only ~one, so the next is denied");
}

#[test]
fn rate_limiter_never_zero_division_or_panic_on_minimal_rate() {
    // per_sec 0 is clamped to 1; must not panic and must allow exactly one.
    let mut rl = RateLimiter::new(0, 0);
    assert!(rl.allow(0));
    assert!(!rl.allow(0));
}

#[test]
fn a_token_comes_back_after_its_time_and_not_before() {
    let mut rl = RateLimiter::new(2, 0);
    assert!(rl.allow(0));
    assert!(rl.allow(0));
    assert!(!rl.allow(SECOND / 2 - 1));
    assert!(rl.allow(SECOND / 2));
    assert!(!rl.allow(SECOND / 2));
}

#[test]
fn the_bucket_holds_no_more_than_a_second() {
    let mut rl = RateLimiter::new(3, 0);
    let later = 1_000_000 * SECOND;
    for _ in 0..3 {
        assert!(rl.allow(later));
    }
    assert!(!rl.allow(later));
}

#[test]
fn a_clock_that_goes_back_adds_nothing() {
    let mut rl = RateLimiter::new(1, 10 * SECOND);
    assert!(rl.allow(10 * SECOND));
    assert!(!rl.allow(0));
    assert!(!rl.allow(SECOND - 1));
    assert!(rl.allow(SECOND));
    assert!(rl.allow(u64::MAX));
}

#[test]
fn no_more_are_granted_than_the_rate_allows() {
    let mut rl = RateLimiter::new(16, 0);
    let mut granted: u64 = 0;
    let mut now: u64 = 0;
    while now <= 10 * SECOND {
        if rl.allow(now) {
            granted += 1;
        }
        now += SECOND / 100;
    }
    assert_eq!(granted, 16 + 16 * 10);
}

#[test]
fn the_turnstile_looks_at_the_rate_before_the_number() {
    let mut turnstile = Turnstile::new(2, 3, 0);
    assert_eq!(turnstile.arrive(0), Admission::Admitted);
    assert_eq!(turnstile.arrive(0), Admission::Admitted);
    // The third token is spent on a tunnel that is refused.
    assert_eq!(turnstile.arrive(0), Admission::CapReached);
    assert_eq!(turnstile.arrive(0), Admission::RateExceeded);
    assert_eq!(turnstile.live(), 2);
    turnstile.leave();
    assert_eq!(turnstile.live(), 1);
    assert_eq!(turnstile.arrive(0), Admission::RateExceeded);
    assert_eq!(turnstile.arrive(SECOND), Admission::Admitted);
    assert_eq!(turnstile.live(), 2);
}

#[test]
fn leaving_an_empty_turnstile_changes_nothing() {
    let mut turnstile = Turnstile::new(CONNECT_MAX_CONNS, CONNECT_MAX_CONN_RATE, 0);
    turnstile.leave();
    assert_eq!(turnstile.live(), 0);
    for _ in 0..64 {
        assert_eq!(turnstile.arrive(0), Admission::Admitted);
    }
    assert_eq!(turnstile.arrive(0), Admission::RateExceeded);
    assert_eq!(turnstile.arrive(SECOND), Admission::Admitted);
    for _ in 0..63 {
        assert_eq!(turnstile.arrive(SECOND), Admission::Admitted);
    }
    assert_eq!(turnstile.arrive(2 * SECOND), Admission::CapReached);
}

#[test]
fn a_turnstile_for_nobody_admits_nobody() {
    let mut turnstile = Turnstile::new(0, 5, 0);
    assert_eq!(turnstile.arrive(0), Admission::CapReached);
}

#[test]
fn in_any_window_no_more_than_the_rate_allows_are_let_in() {
    let rate: u64 = 3;
    let mut turnstile = Turnstile::new(5, rate as u32, 0);
    // Somebody comes every tenth of a second, after a long pause, and each tunnel is closed at
    // once or not at all.
    let mut admitted: Vec<u64> = Vec::new();
    for i in 0..300u64 {
        let now = 100 * SECOND + i * (SECOND / 10);
        if turnstile.arrive(now) == Admission::Admitted {
            admitted.push(now);
            if i % 4 != 0 || turnstile.live() == 5 {
                turnstile.leave();
            }
        }
        assert!(turnstile.live() <= 5);
    }
    for (i, from) in admitted.iter().enumerate() {
        for (j, to) in admitted.iter().enumerate().skip(i) {
            let seconds = (to - from + SECOND - 1) / SECOND;
            assert!((j - i + 1) as u64 <= rate + rate * seconds);
        }
    }
    assert!(admitted.len() > 60);
}
