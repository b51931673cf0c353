use std::time::Duration;

use chemengine::application::time::{FixedTime, FrameClock};

fn nanos(d: Duration) -> u128 {
    d.as_nanos()
}

#[test]
fn fixed_time_default_is_60hz() {
    let ft = FixedTime::default();
    let expected = Duration::from_secs_f64(1.0 / 60.0);
    let step = Duration::from_nanos(ft.step() as u64);
    let diff = if step > expected { step - expected } else { expected - step };
    assert!(diff < Duration::from_nanos(100));
}

#[test]
fn fixed_time_accumulate_and_expend() {
    let mut ft = FixedTime::new(nanos(Duration::from_millis(100)));
    ft.accumulate(nanos(Duration::from_millis(250)));
    assert!(ft.expend());
    assert!(ft.expend());
    assert!(!ft.expend());
    assert_eq!(ft.accumulator(), nanos(Duration::from_millis(50)));
}

#[test]
fn new_fixed_time_has_empty_accumulator() {
    let ft = FixedTime::new(1_000);
    assert_eq!(ft.step(), 1_000);
    assert_eq!(ft.accumulator(), 0);
}

#[test]
fn expend_exactly_one_step() {
    let mut ft = FixedTime::new(10);
    ft.accumulate(10);
    assert!(ft.expend());
    assert_eq!(ft.accumulator(), 0);
    assert!(!ft.expend());
}

fn spin_for(d: Duration) {
    let start = std::time::Instant::now();
    while start.elapsed() < d {}
}

#[test]
fn time_new_starts_at_zero() {
    let time = FrameClock::new();
    assert_eq!(time.delta(), 0);
    assert_eq!(time.elapsed(), 0);
    assert_eq!(time.frame_count(), 0);
}

#[test]
fn time_update_increments_frame_count() {
    let mut time = FrameClock::new();
    time.tick();
    assert_eq!(time.frame_count(), 1);
    time.tick();
    assert_eq!(time.frame_count(), 2);
}

#[test]
fn time_update_produces_nonnegative_delta() {
    let mut time = FrameClock::new();
    spin_for(Duration::from_millis(1));
    time.tick();
    assert!(time.delta() > 0);
    assert!(time.delta() >= nanos(Duration::from_millis(1)));
}

#[test]
fn time_elapsed_grows() {
    let mut time = FrameClock::new();
    spin_for(Duration::from_millis(5));
    time.tick();
    let e1 = time.elapsed();
    spin_for(Duration::from_millis(5));
    time.tick();
    let e2 = time.elapsed();
    assert!(e2 > e1);
    assert_eq!(time.delta(), e2 - e1);
}

#[test]
fn advance_records_the_time_since_the_previous_frame() {
    let mut time = FrameClock::new();
    time.advance(1_000);
    assert_eq!((time.frame_count(), time.elapsed(), time.delta()), (1, 1_000, 1_000));
    time.advance(1_750);
    assert_eq!((time.frame_count(), time.elapsed(), time.delta()), (2, 1_750, 750));
    time.advance(1_750);
    assert_eq!((time.frame_count(), time.elapsed(), time.delta()), (3, 1_750, 0));
}
