use tane_mahuta::timer::FrameTimer;

#[test]
fn a_timer_needs_a_duration() {
    assert!(FrameTimer::new(0).is_none());
    let timer = FrameTimer::new(5).unwrap();
    assert_eq!(timer.duration_nanos(), 5);
    assert_eq!(timer.elapsed_nanos(), 0);
    assert!(!timer.just_finished());
}

#[test]
fn a_tick_accumulates_and_wraps() {
    let mut timer = FrameTimer::new(10).unwrap();
    assert!(!timer.tick(4));
    assert_eq!(timer.elapsed_nanos(), 4);
    assert!(!timer.tick(5));
    assert_eq!(timer.elapsed_nanos(), 9);
    assert!(timer.tick(1));
    assert_eq!(timer.elapsed_nanos(), 0);
    assert!(timer.just_finished());
    assert!(!timer.tick(0));
    assert!(!timer.just_finished());
    assert!(timer.tick(37));
    assert_eq!(timer.elapsed_nanos(), 7);
    assert_eq!(timer.duration_nanos(), 10);
}

#[test]
fn the_longest_tick_does_not_overflow() {
    let mut timer = FrameTimer::new(u64::MAX).unwrap();
    assert!(!timer.tick(u64::MAX - 1));
    assert!(timer.tick(u64::MAX));
    // (2^64 - 2) + (2^64 - 1) - (2^64 - 1)
    assert_eq!(timer.elapsed_nanos(), u64::MAX - 1);
}

#[test]
fn a_reset_starts_over() {
    let mut timer = FrameTimer::new(10).unwrap();
    timer.tick(13);
    assert!(timer.just_finished());
    timer.reset();
    assert_eq!(timer, FrameTimer::new(10).unwrap());
}

#[test]
fn the_cut_into_frames_does_not_matter() {
    let mut one = FrameTimer::new(1_500).unwrap();
    let mut many = FrameTimer::new(1_500).unwrap();
    one.tick(4_000);
    for _ in 0..40 {
        many.tick(100);
    }
    assert_eq!(one.elapsed_nanos(), 1_000);
    assert_eq!(many.elapsed_nanos(), 1_000);
}
