use beemon::clock::expired;
use std::time::{Duration, Instant};

#[test]
fn recent_instant_has_not_expired() {
    let t = Instant::now();
    assert!(!expired(&t, &Duration::from_secs(3600)));
}

#[test]
fn old_instant_has_expired() {
    if let Some(past) = Instant::now().checked_sub(Duration::from_secs(5)) {
        assert!(expired(&past, &Duration::from_secs(1)));
        assert!(!expired(&past, &Duration::from_secs(3600)));
    }
}
