use streaming_quotes::QuoteError;
use streaming_quotes::timer::Timer;

#[test]
fn test_sleep() {
    let mut timer = Timer::default();
    timer.add_event("A", 20);
    timer.add_event("B", 30);

    timer.tick();
    assert_eq!(timer.is_expired_event("A").unwrap(), false);
    assert_eq!(timer.is_expired_event("B").unwrap(), false);
    timer.tick();
    assert_eq!(timer.is_expired_event("A").unwrap(), true);
    assert_eq!(timer.is_expired_event("B").unwrap(), false);
    timer.tick();
    assert_eq!(timer.is_expired_event("A").unwrap(), true);
    assert_eq!(timer.is_expired_event("B").unwrap(), true);

    timer.reset_event("A").unwrap();
    timer.reset_event("B").unwrap();

    assert_eq!(timer.is_expired_event("A").unwrap(), false);
    assert_eq!(timer.is_expired_event("B").unwrap(), false);
}

#[test]
fn expiry_rounds_the_bound_up() {
    let mut timer = Timer::new();
    timer.add_event("odd", 25);
    timer.tick();
    timer.tick();
    // 25 ms with a 10 ms tick needs three ticks, not two.
    assert_eq!(timer.is_expired_event("odd").unwrap(), false);
    timer.tick();
    assert_eq!(timer.is_expired_event("odd").unwrap(), true);
}

#[test]
fn short_bound_expires_after_first_tick() {
    let mut timer = Timer::new();
    timer.add_event("short", 5);
    assert_eq!(timer.is_expired_event("short").unwrap(), false);
    timer.tick();
    assert_eq!(timer.is_expired_event("short").unwrap(), true);
}

#[test]
fn zero_bound_is_expired_at_once() {
    let mut timer = Timer::new();
    timer.add_event("now", 0);
    assert_eq!(timer.is_expired_event("now").unwrap(), true);
}

#[test]
fn expiry_is_sticky_until_reset() {
    let mut timer = Timer::new();
    timer.add_event("e", 10);
    timer.tick();
    assert!(timer.is_expired_event("e").unwrap());
    timer.tick();
    timer.tick();
    assert!(timer.is_expired_event("e").unwrap());
    timer.reset_event("e").unwrap();
    assert!(!timer.is_expired_event("e").unwrap());
}

#[test]
fn unknown_event_fails() {
    let mut timer = Timer::new();
    assert_eq!(timer.is_expired_event("nope").unwrap_err(), QuoteError::UnknownEvent);
    assert_eq!(timer.reset_event("nope").unwrap_err(), QuoteError::UnknownEvent);
    assert_eq!(timer.remove_event("nope").unwrap_err(), QuoteError::UnknownEvent);
}

#[test]
fn add_event_replaces_and_remove_unregisters() {
    let mut timer = Timer::new();
    timer.add_event("e", 10);
    timer.tick();
    assert!(timer.is_expired_event("e").unwrap());
    // Registering again restarts the counter with the new bound.
    timer.add_event("e", 20);
    timer.tick();
    assert!(!timer.is_expired_event("e").unwrap());
    timer.remove_event("e").unwrap();
    assert_eq!(timer.is_expired_event("e").unwrap_err(), QuoteError::UnknownEvent);
}
