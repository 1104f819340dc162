use device_faker::upkeep::{reap_zombie_children, WarnLimiter, FG_WARN_INTERVAL};

#[test]
fn warnings_come_at_most_once_a_minute() {
    let mut limiter = WarnLimiter::new();
    assert_eq!(FG_WARN_INTERVAL, 60_000_000_000);
    assert!(limiter.warn_fg_unavailable(5));
    assert!(!limiter.warn_fg_unavailable(5));
    assert!(!limiter.warn_fg_unavailable(5 + FG_WARN_INTERVAL - 1));
    assert!(limiter.warn_fg_unavailable(5 + FG_WARN_INTERVAL));
    assert!(!limiter.warn_fg_unavailable(6 + FG_WARN_INTERVAL));
    // A clock that reads earlier than the last warning counts as no time passed.
    assert!(!limiter.warn_fg_unavailable(0));
}

#[test]
fn children_are_collected_until_none_is_left() {
    assert!(reap_zombie_children(4321));
    assert!(!reap_zombie_children(0));
    assert!(!reap_zombie_children(-1));
    assert!(reap_zombie_children(-2));
}
