use odeza::time::{Stopwatch, Timer};
use std::time::Duration;

fn progress(timer: &Timer, duration: Duration) -> f32 {
    1.0 - timer.remaining().as_secs_f32() / duration.as_secs_f32()
}

#[test]
fn test_timer() {
    let mut timer = Timer::new(Duration::from_millis(100));

    assert!(!timer.tick(Duration::from_millis(50)));
    assert!(!timer.is_finished());
    assert!((progress(&timer, Duration::from_millis(100)) - 0.5).abs() < 0.01);

    assert!(timer.tick(Duration::from_millis(60)));
    assert!(timer.is_finished());
}

#[test]
fn test_repeating_timer() {
    let mut timer = Timer::repeating(Duration::from_millis(100));

    assert!(timer.tick(Duration::from_millis(150)));
    assert!(!timer.is_finished()); // Repeating timer never "finishes"

    // Should have rolled over with 50ms remaining
    assert!(timer.remaining() < Duration::from_millis(60));
}

#[test]
fn timer_remaining_is_exact() {
    let mut timer = Timer::new(Duration::new(3, 500));
    assert_eq!(timer.remaining(), Duration::new(3, 500));
    assert!(!timer.tick(Duration::new(1, 501)));
    assert_eq!(timer.remaining(), Duration::new(1, 999_999_999));
    assert!(!timer.tick(Duration::new(1, 999_999_998)));
    assert_eq!(timer.remaining(), Duration::new(0, 1));
    // Reaching the duration exactly triggers.
    assert!(timer.tick(Duration::new(0, 1)));
    assert!(timer.is_finished());
    assert_eq!(timer.remaining(), Duration::ZERO);
    // A finished one-shot timer does not trigger again.
    assert!(!timer.tick(Duration::from_secs(10)));
    assert!(timer.is_finished());
    timer.reset();
    assert!(!timer.is_finished());
    assert_eq!(timer.remaining(), Duration::new(3, 500));
}

#[test]
fn repeating_timer_carries_the_rest_over() {
    let mut timer = Timer::repeating(Duration::from_millis(100));
    assert!(!timer.tick(Duration::from_millis(99)));
    assert_eq!(timer.remaining(), Duration::from_millis(1));
    assert!(timer.tick(Duration::from_millis(51)));
    assert_eq!(timer.remaining(), Duration::from_millis(50));
    assert!(timer.tick(Duration::from_millis(50)));
    assert_eq!(timer.remaining(), Duration::from_millis(100));
    // More than two spans in one tick: one span is taken off.
    assert!(timer.tick(Duration::from_millis(250)));
    assert_eq!(timer.remaining(), Duration::ZERO);
    assert!(timer.tick(Duration::ZERO));
    assert_eq!(timer.remaining(), Duration::from_millis(50));
    assert!(!timer.is_finished());
    timer.reset();
    assert_eq!(timer.remaining(), Duration::from_millis(100));
}

#[test]
fn timer_of_the_longest_span() {
    let timer = Timer::new(Duration::MAX);
    assert_eq!(timer.remaining(), Duration::MAX);
    let mut zero = Timer::new(Duration::ZERO);
    assert_eq!(zero.remaining(), Duration::ZERO);
    assert!(zero.tick(Duration::ZERO));
    assert!(zero.is_finished());
}

#[test]
fn stopwatch_states() {
    let mut sw = Stopwatch::new();
    assert!(sw.is_running());
    sw.stop();
    assert!(!sw.is_running());
    let banked = sw.elapsed();
    // A stopped stopwatch stands still.
    assert_eq!(sw.elapsed(), banked);
    sw.stop();
    assert_eq!(sw.elapsed(), banked);
    sw.start();
    assert!(sw.is_running());
    assert!(sw.elapsed() >= banked);
    sw.start();
    sw.stop();
    assert!(sw.elapsed() >= banked);
    sw.reset();
    assert!(!sw.is_running());
    assert_eq!(sw.elapsed(), Duration::ZERO);

    let mut idle = Stopwatch::stopped();
    assert!(!idle.is_running());
    assert_eq!(idle.elapsed(), Duration::ZERO);
    idle.reset();
    assert!(!idle.is_running());
    assert!(Stopwatch::default().is_running());
    let copy = idle.clone();
    assert_eq!(copy.elapsed(), Duration::ZERO);
}
