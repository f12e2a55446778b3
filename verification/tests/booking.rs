use spacermake::utils::booking::Booking;
use spacermake::utils::NANOS_PER_SEC;

#[test]
fn new_booking_is_idle_and_has_not_run() {
    let booking = Booking::new("alice".to_string(), 5, 1_700_000_000_000_000_000);
    assert_eq!(booking.user, "alice");
    assert_eq!(booking.creation_instant, 5);
    assert_eq!(booking.creation_datetime, 1_700_000_000_000_000_000);
    assert_eq!(booking.currently_running_since, None);
    assert_eq!(booking.runtime_accumulator, 0);
    assert!(!booking.is_running());
    assert_eq!(booking.total_runtime(1000), 0);
}

#[test]
fn running_agrees_with_the_recorded_start_after_every_step() {
    let mut booking = Booking::new("alice".to_string(), 0, 0);
    let reports = [true, true, false, false, true, false, true];
    let mut now = 0;
    for power in reports {
        now += NANOS_PER_SEC;
        booking.track(power, now);
        assert_eq!(booking.is_running(), booking.currently_running_since.is_some());
        assert_eq!(booking.is_running(), power);
    }
}

#[test]
fn track_tells_whether_the_state_changed() {
    let mut booking = Booking::new("alice".to_string(), 0, 0);
    assert!(!booking.track(false, 1));
    assert!(booking.track(true, 2));
    assert_eq!(booking.currently_running_since, Some(2));
    assert!(!booking.track(true, 3));
    assert_eq!(booking.currently_running_since, Some(2));
    assert!(booking.track(false, 10));
    assert_eq!(booking.currently_running_since, None);
    assert_eq!(booking.runtime_accumulator, 8);
    assert!(!booking.track(false, 11));
    assert_eq!(booking.runtime_accumulator, 8);
}

#[test]
fn total_runtime_adds_the_open_run() {
    let mut booking = Booking::new("alice".to_string(), 100, 0);
    booking.track(true, 200);
    assert_eq!(booking.total_runtime(200), 0);
    assert_eq!(booking.total_runtime(250), 50);
    booking.track(false, 300);
    assert_eq!(booking.total_runtime(300), 100);
    assert_eq!(booking.total_runtime(1000), 100);
    booking.track(true, 400);
    assert_eq!(booking.total_runtime(450), 150);
    booking.track(false, 500);
    assert_eq!(booking.runtime_accumulator, 200);
}

#[test]
fn total_runtime_never_decreases_while_running() {
    let mut booking = Booking::new("alice".to_string(), 0, 0);
    booking.track(true, 10);
    let mut last = 0;
    for now in 0..100u64 {
        let total = booking.total_runtime(now);
        assert!(total >= last);
        last = total;
    }
}

#[test]
fn total_runtime_survives_a_stop_and_a_start() {
    let mut booking = Booking::new("alice".to_string(), 0, 0);
    booking.track(true, 10);
    let before = booking.total_runtime(40);
    booking.track(false, 40);
    assert_eq!(booking.total_runtime(40), before);
    assert_eq!(booking.total_runtime(70), before);
    booking.track(true, 70);
    assert_eq!(booking.total_runtime(70), before);
    assert_eq!(booking.total_runtime(75), before + 5);
}

#[test]
fn total_runtime_before_the_start_of_a_run_counts_no_open_run() {
    let mut booking = Booking::new("alice".to_string(), 0, 0);
    booking.track(true, 10);
    booking.track(false, 20);
    booking.track(true, 50);
    assert_eq!(booking.total_runtime(30), 10);
}

#[test]
fn a_booking_is_well_formed_when_its_runtime_fits_before_the_run_under_way() {
    let mut booking = Booking::new("alice".to_string(), 100, 0);
    assert!(booking.is_well_formed());
    booking.track(true, 150);
    booking.track(false, 180);
    booking.track(true, 200);
    assert!(booking.is_well_formed());
    booking.runtime_accumulator = 100;
    assert!(booking.is_well_formed());
    booking.runtime_accumulator = 101;
    assert!(!booking.is_well_formed());
    booking.currently_running_since = None;
    assert!(booking.is_well_formed());
    booking.runtime_accumulator = u64::MAX - 99;
    assert!(!booking.is_well_formed());
    booking.runtime_accumulator = u64::MAX - 100;
    assert!(booking.is_well_formed());
}
