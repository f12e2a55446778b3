use spacermake::utils::{create_display_time_string, get_power_state, minute_mark, NANOS_PER_SEC};
use spacermake::utils::fault::Fault;

#[test]
fn minute_mark_holds_during_the_first_second_of_each_minute() {
    assert!(minute_mark(0));
    assert!(minute_mark(60 * NANOS_PER_SEC));
    assert!(minute_mark(60 * NANOS_PER_SEC + 999_999_999));
    assert!(!minute_mark(61 * NANOS_PER_SEC));
    assert!(!minute_mark(59 * NANOS_PER_SEC + 999_999_999));
}

#[test]
fn display_time_rounds_partial_minutes_up() {
    assert_eq!(create_display_time_string(0), "0:00");
    assert_eq!(create_display_time_string(1), "0:01");
    assert_eq!(create_display_time_string(60 * NANOS_PER_SEC), "0:01");
    assert_eq!(create_display_time_string(60 * NANOS_PER_SEC + 1), "0:02");
    assert_eq!(create_display_time_string(3600 * NANOS_PER_SEC), "1:00");
    assert_eq!(create_display_time_string(36_000 * NANOS_PER_SEC + 1), "10:01");
}

#[test]
fn power_state_is_read_from_margins() {
    assert_eq!(get_power_state("{\"MARGINS\":{\"PowerHigh\":\"ON\"}}"), Ok("ON".to_string()));
    assert_eq!(get_power_state("{\"MARGINS\":{\"PowerHigh\":\"OFF\"}}"), Ok("OFF".to_string()));
    assert_eq!(get_power_state("not json"), Err(Fault::InvalidJson));
    assert_eq!(get_power_state("{\"Time\":1}"), Err(Fault::NoMargins));
    assert_eq!(get_power_state("{\"MARGINS\":{}}"), Err(Fault::NoPowerHigh));
    assert_eq!(get_power_state("{\"MARGINS\":{\"PowerHigh\":1}}"), Err(Fault::PowerHighNotText));
}
