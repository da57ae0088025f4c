use dex_arbitr::app::backoff::{classify, BackoffController, BackoffError, BackoffParams};
use dex_arbitr::clock::{Duration, Instant};

fn now() -> Instant {
    Instant::from_millis(1_000_000_000)
}

fn ctl() -> BackoffController {
    BackoffController::new(BackoffParams::default())
}

#[test]
fn classifies_only_backoff_worthy_errors() {
    assert_eq!(classify("code=21104 invalid nonce"), Some(BackoffError::InvalidNonce));
    assert_eq!(classify("HTTP 429 Too Many Requests"), Some(BackoffError::RateLimit));
    assert_eq!(classify("code 23000"), Some(BackoffError::RateLimitL1));
    assert_eq!(classify("insufficient depth"), None);
    assert_eq!(classify("order rejected: qty=429"), None);
    assert_eq!(classify("Rate Limit reached"), Some(BackoffError::RateLimit));
    assert_eq!(classify("invalid reduce only mode"), None);
}

#[test]
fn pause_grows_exponentially_and_clamps() {
    let c = ctl();
    assert_eq!(c.pause_for(1), Duration::from_secs(120));
    assert_eq!(c.pause_for(2), Duration::from_secs(240));
    assert_eq!(c.pause_for(3), Duration::from_secs(480));
    assert_eq!(c.pause_for(99), Duration::from_secs(3600));
}

#[test]
fn repeat_error_extends_rather_than_refreshes() {
    let mut c = ctl();
    let t0 = now();
    assert_eq!(c.register("lighter", BackoffError::InvalidNonce, t0), Duration::from_secs(120));
    let second = c.register("lighter", BackoffError::InvalidNonce, t0.after(Duration::from_secs(10)));
    assert_eq!(second, Duration::from_secs(240));
    assert_eq!(c.get("lighter").unwrap().count, 2);
}

#[test]
fn quiet_period_resets_count() {
    let mut c = ctl();
    let t0 = now();
    c.register("lighter", BackoffError::RateLimit, t0);
    let later = t0.after(Duration::from_secs(1801));
    assert_eq!(c.register("lighter", BackoffError::RateLimit, later), Duration::from_secs(120));
    assert_eq!(c.get("lighter").unwrap().count, 1);
}

#[test]
fn pause_expires_but_count_survives() {
    let mut c = ctl();
    let t0 = now();
    c.register("lighter", BackoffError::InvalidNonce, t0);
    assert!(c.is_paused("lighter", t0.after(Duration::from_secs(60))));
    let after = t0.after(Duration::from_secs(121));
    assert!(!c.is_paused("lighter", after));
    assert_eq!(c.register("lighter", BackoffError::InvalidNonce, after), Duration::from_secs(240));
}

#[test]
fn venue_key_is_case_insensitive() {
    let mut c = ctl();
    let t0 = now();
    c.register("Lighter", BackoffError::RateLimit, t0);
    assert!(c.is_paused("lighter", t0));
}

#[test]
fn unknown_venue_is_never_paused() {
    let mut c = ctl();
    assert!(!c.is_paused("sodex", now()));
}

#[test]
fn default_pauses_and_what_is_paused() {
    let mut c = BackoffController::default();
    assert!(c.is_empty());
    assert_eq!(c.pause_for(1), Duration::from_secs(120));
    assert_eq!(c.pause_for(99), Duration::from_secs(3600));
    c.register("sodex", BackoffError::RateLimit, now());
    c.register("Lighter", BackoffError::InvalidNonce, now());
    let paused = c.paused_venues(now().after(Duration::from_secs(20)));
    assert_eq!(paused.len(), 2);
    assert_eq!(paused[0], ("lighter".to_string(), "21104", 100));
    assert_eq!(paused[1], ("sodex".to_string(), "429", 100));
    c.set_params(BackoffParams { min: Duration::from_secs(7), ..BackoffParams::default() });
    assert_eq!(c.pause_for(2), Duration::from_secs(14));
    assert_eq!(c.get("sodex").unwrap().count, 1);
}
