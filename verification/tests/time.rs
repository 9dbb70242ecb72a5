use coop_executor::time::Duration;
use coop_executor::time::Instant;

#[test]
fn test_instant_add() {
    let a = Instant::new(10);
    let b = Duration::new(5);
    assert_eq!(a + b, Instant::new(15));
}

#[test]
fn test_instant_sub() {
    let a = Instant::new(10);
    let b = Instant::new(5);
    assert_eq!(a - b, Duration::new(5));
    assert_eq!(b - a, Duration::new(-5));
}

#[test]
fn test_duration_add() {
    let a = Duration::new(10);
    let b = Duration::new(5);
    assert_eq!(a + b, Duration::new(15));
}

#[test]
fn test_duration_sub() {
    let a = Duration::new(10);
    let b = Duration::new(5);
    assert_eq!(a - b, Duration::new(5));
    assert_eq!(b - a, Duration::new(-5));
}

#[test]
fn test_duration_mul() {
    let a = Duration::new(10);
    assert_eq!(a * 2, Duration::new(20));
}

#[test]
fn test_duration_div() {
    let a = Duration::new(10);
    assert_eq!(a / 2, Duration::new(5));
}

#[test]
fn duration_div_rounds_toward_zero() {
    assert_eq!(Duration::new(-7) / 2, Duration::new(-3));
    assert_eq!(Duration::new(7) / -2, Duration::new(-3));
    assert_eq!(Duration::new(-7) / -2, Duration::new(3));
    assert_eq!(Duration::new(7) / 2, Duration::new(3));
}

#[test]
fn instant_sentinels_bound_every_instant() {
    assert_eq!(Instant::min_value().ticks(), i64::MIN);
    assert_eq!(Instant::max_value().ticks(), i64::MAX);
    assert!(Instant::min_value() < Instant::new(0));
    assert!(Instant::new(0) < Instant::max_value());
    assert_eq!(Duration::min_value().ticks(), i64::MIN);
    assert_eq!(Duration::max_value().ticks(), i64::MAX);
}

#[test]
fn instants_are_ordered_by_their_ticks() {
    assert!(Instant::new(3) < Instant::new(4));
    assert!(Duration::new(-1) < Duration::new(0));
    assert_eq!(Instant::new(7).ticks(), 7);
    assert_eq!(Duration::new(-7).ticks(), -7);
}

#[test]
fn an_instant_is_shown_as_its_tick() {
    assert_eq!(Instant::new(5).to_text(), "tick 5");
    assert_eq!(Instant::new(0).to_text(), "tick 0");
    assert_eq!(Instant::new(-12).to_text(), "tick -12");
    assert_eq!(Instant::max_value().to_text(), "tick 9223372036854775807");
}

#[test]
fn a_duration_is_shown_in_ticks() {
    assert_eq!(Duration::new(1).to_text(), "1 tick");
    assert_eq!(Duration::new(2).to_text(), "2 ticks");
    assert_eq!(Duration::new(0).to_text(), "0 ticks");
    assert_eq!(Duration::new(-1).to_text(), "-1 ticks");
    assert_eq!(Duration::min_value().to_text(), "-9223372036854775808 ticks");
}
