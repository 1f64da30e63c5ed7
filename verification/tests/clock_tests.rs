use maelstrom::clock::LamportClock;

#[test]
fn new_clock_starts_at_zero() {
    let clock = LamportClock::new();
    assert_eq!(clock.time(), 0);
    let clock: LamportClock = Default::default();
    assert_eq!(clock.time(), 0);
}

#[test]
fn increment_returns_pre_increment_snapshot() {
    let mut clock = LamportClock::new();
    assert_eq!(clock.increment(), 0);
    assert_eq!(clock.increment(), 1);
    assert_eq!(clock.time(), 2);
}

#[test]
fn increments_are_distinct_and_gapless() {
    let mut clock = LamportClock::new();
    let mut seen = Vec::new();
    for _ in 0..100 {
        let v = clock.increment();
        assert!(!seen.contains(&v), "duplicate increment value {}", v);
        seen.push(v);
    }
    for (k, v) in seen.iter().enumerate() {
        assert_eq!(*v, k as u64);
    }
}

#[test]
fn fetch_set_advances_past_observed_value() {
    let mut clock = LamportClock::new();
    clock.fetch_set(10);
    assert_eq!(clock.time(), 11);
    // The next minted id exceeds the observed one.
    assert!(clock.increment() > 10);
}

#[test]
fn fetch_set_never_moves_backward() {
    let mut clock = LamportClock::new();
    clock.fetch_set(10);
    clock.fetch_set(3);
    assert_eq!(clock.time(), 11);
}

#[test]
fn fetch_set_order_does_not_matter() {
    let a: u64 = 4;
    let b: u64 = 9;
    let mut forward = LamportClock::new();
    forward.fetch_set(a);
    forward.fetch_set(b);
    let mut reversed = LamportClock::new();
    reversed.fetch_set(b);
    reversed.fetch_set(a);
    assert_eq!(forward.time(), reversed.time());
    assert!(forward.increment() > b);
}

#[test]
fn fetch_set_of_equal_value_advances_once() {
    let mut clock = LamportClock::new();
    clock.fetch_set(0);
    assert_eq!(clock.time(), 1);
    clock.fetch_set(1);
    assert_eq!(clock.time(), 2);
}

#[test]
fn clock_from_starts_at_the_observed_value() {
    let clock = LamportClock::from(7);
    assert_eq!(clock.time(), 7);
    let clock: LamportClock = 42u64.into();
    assert_eq!(clock.time(), 42);
}
