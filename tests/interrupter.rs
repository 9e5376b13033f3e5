use request_follower::config::AppConfig;
use request_follower::http::health::AppStatus;
use request_follower::interrupter::DEFAULT_GRACE_SECONDS;
use request_follower::Interrupter;

#[test]
fn no_signal_within_grace() {
    let mut guard = Interrupter::with_grace(1_000, 1800);
    for now in [1_000, 1_500, 2_799, 2_800] {
        assert!(!guard.interrupt_at(now));
    }
    assert!(!guard.is_signalled());
}

#[test]
fn after_grace_exactly_one_signal() {
    let mut guard = Interrupter::with_grace(1_000, 1800);
    let honoured = [2_801, 2_801, 5_000, 9_999]
        .iter()
        .filter(|now| guard.interrupt_at(**now))
        .count();
    assert_eq!(honoured, 1);
    assert!(guard.is_signalled());
    assert_eq!(guard.startup_time(), 1_000);
    assert_eq!(guard.grace_period(), 1800);
}

#[test]
fn operator_interrupt_skips_grace_once() {
    let mut guard = Interrupter::with_grace(1_000, 1800);
    assert!(guard.interrupt_now());
    assert!(!guard.interrupt_now());
    assert!(!guard.interrupt_at(100_000));
}

#[test]
fn extreme_times_do_not_overflow() {
    let mut guard = Interrupter::with_grace(i64::MIN, 0);
    assert!(guard.interrupt_at(i64::MAX));
    let mut guard = Interrupter::with_grace(i64::MAX, 0);
    assert!(!guard.interrupt_at(i64::MIN));
}

#[test]
fn new_guard_uses_default_grace() {
    let mut guard = Interrupter::new();
    assert_eq!(guard.grace_period(), DEFAULT_GRACE_SECONDS);
    assert!(!guard.interrupt());
}

#[test]
fn status_reports() {
    let up = AppStatus::up(1_000, 1_000 + 129661, "10.0.0.7".to_string());
    assert_eq!(up.status, "up");
    assert_eq!(up.startup_time, 1_000);
    assert_eq!(up.up_time.to_string(), "1d12h1m1s");
    assert_eq!(up.server_ip_address, "10.0.0.7");
    let down = AppStatus::down(1_000, 1_000, "unknown".to_string());
    assert_eq!(down.status, "down");
    assert_eq!(down.up_time.to_string(), "0s");
}

#[test]
fn config_holds_port() {
    assert_eq!(AppConfig::new(8080).server.port, 8080);
}
