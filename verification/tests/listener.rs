use spacermake::config::slave::Slave;
use spacermake::config::SpacerConfig;
use spacermake::state::listener::{decode_power, is_protected, read_power, Reaction, BOOKING_TOPIC};
use spacermake::state::schedule::SHUTDOWN_DELAY;
use spacermake::state::{set_power_state, Publish, State};
use spacermake::utils::booking::Booking;
use spacermake::utils::fault::{ErrorKind, Fault};
use spacermake::utils::{get_power_state, MAX_TELEMETRY_LENGTH, NANOS_PER_SEC};

const SECOND: u64 = NANOS_PER_SEC;

fn slave(name: &str, runs_continuously: bool, needs_trailing_time: bool) -> (String, Slave) {
    (
        name.to_string(),
        Slave {
            runs_continuously,
            needs_trailing_time,
            topic: format!("cmnd/{name}/Power"),
            payload_on: "ON".to_string(),
            payload_off: "OFF".to_string(),
        },
    )
}

fn master(name: &str, slaves: &[&str]) -> (String, Vec<String>) {
    (name.to_string(), slaves.iter().map(|slave| slave.to_string()).collect())
}

fn workshop() -> SpacerConfig {
    SpacerConfig {
        slaves_by_master: vec![
            master("drill", &["drill-light"]),
            master("saw1", &["dust-collector", "saw-light"]),
            master("saw2", &["dust-collector", "saw-light"]),
            master("laser", &["fume-extractor", "chiller"]),
            master("printer", &[]),
        ],
        slave_properties: vec![
            slave("drill-light", false, false),
            slave("dust-collector", true, false),
            slave("saw-light", false, false),
            slave("fume-extractor", false, true),
            slave("chiller", true, true),
        ],
        machine_ids: vec![("drill".to_string(), "reader-1".to_string())],
        data_user: Vec::new(),
        data_machines: Vec::new(),
        billing_log: String::new(),
        machine_log: String::new(),
        debug_log: String::new(),
        mqtt_host: String::new(),
        mqtt_username: None,
        mqtt_password: None,
        fabaccess_host: String::new(),
        fabaccess_port: 0,
    }
}

fn on(name: &str) -> Publish {
    Publish { topic: format!("cmnd/{name}/Power"), payload: "ON".to_string() }
}

fn off(name: &str) -> Publish {
    Publish { topic: format!("cmnd/{name}/Power"), payload: "OFF".to_string() }
}

fn ok(commands: Vec<Publish>) -> Reaction {
    Reaction { result: Ok(()), released: None, commands }
}

fn failed(fault: Fault) -> Reaction {
    Reaction { result: Err(fault), released: None, commands: Vec::new() }
}

fn booked_machines(state: &State) -> Vec<String> {
    state.bookings.iter().map(|entry| entry.0.clone()).collect()
}

fn pending(state: &State) -> Vec<(u64, String)> {
    state.scheduled_shutdowns.entries.iter().cloned().collect()
}

const ON: &str = "{\"MARGINS\":{\"PowerHigh\":\"ON\"}}";
const OFF: &str = "{\"MARGINS\":{\"PowerHigh\":\"OFF\"}}";

#[test]
fn new_state_is_empty() {
    let state = State::new(workshop());
    assert!(state.bookings.is_empty());
    assert_eq!(state.scheduled_shutdowns.len(), 0);
    assert_eq!(state.clock, 0);
}

#[test]
fn booking_running_stopping_and_releasing_leaves_the_machine_free() {
    let mut state = State::new(workshop());
    assert_eq!(state.try_book("drill", "alice", 10 * SECOND, 77), ok(vec![]));
    assert_eq!(booked_machines(&state), vec!["drill"]);
    assert_eq!(state.track_activity("drill", true, 20 * SECOND), ok(vec![on("drill-light")]));
    assert!(state.bookings[0].1.is_running());
    assert_eq!(state.track_activity("drill", false, 65 * SECOND), ok(vec![off("drill-light")]));
    assert!(!state.bookings[0].1.is_running());
    let reaction = state.try_release("drill", 100 * SECOND);
    assert_eq!(reaction.result, Ok(()));
    assert_eq!(reaction.commands, vec![]);
    let (machine, booking) = reaction.released.unwrap();
    assert_eq!(machine, "drill");
    assert_eq!(
        booking,
        Booking {
            user: "alice".to_string(),
            creation_datetime: 77,
            creation_instant: 10 * SECOND,
            currently_running_since: None,
            runtime_accumulator: 45 * SECOND,
        }
    );
    assert!(state.bookings.is_empty());
    assert_eq!(state.clock, 100 * SECOND);
}

#[test]
fn the_same_goes_through_the_bus_messages() {
    let mut state = State::new(workshop());
    let booked = state.on_publish(BOOKING_TOPIC, b"drill;alice;booked".to_vec(), SECOND, 0);
    assert_eq!(booked, (Some("drill;alice;booked".to_string()), ok(vec![])));
    let started = state.on_publish("tele/drill/MARGINS", ON.as_bytes().to_vec(), 2 * SECOND, 0);
    assert_eq!(started, (Some(ON.to_string()), ok(vec![on("drill-light")])));
    let stopped = state.on_publish("tele/drill/MARGINS", OFF.as_bytes().to_vec(), 5 * SECOND, 0);
    assert_eq!(stopped, (Some(OFF.to_string()), ok(vec![off("drill-light")])));
    let (_, released) =
        state.on_publish(BOOKING_TOPIC, b"drill;alice;released".to_vec(), 9 * SECOND, 0);
    assert_eq!(released.result, Ok(()));
    assert_eq!(released.released.unwrap().1.runtime_accumulator, 3 * SECOND);
    assert!(state.bookings.is_empty());
}

#[test]
fn booking_twice_is_a_double_booking() {
    let mut state = State::new(workshop());
    assert_eq!(state.try_book("drill", "alice", 1, 0), ok(vec![]));
    let second = state.try_book("drill", "bob", 2, 0);
    assert_eq!(second, failed(Fault::DoubleBooking));
    assert_eq!(Fault::DoubleBooking.kind(), ErrorKind::DoubleBooking);
    assert_eq!(booked_machines(&state), vec!["drill"]);
    assert_eq!(state.bookings[0].1.user, "alice");
    assert_eq!(state.bookings[0].1.creation_instant, 1);
}

#[test]
fn a_booking_keeps_a_shared_continuous_slave_powered() {
    let mut state = State::new(workshop());
    assert_eq!(state.try_book("saw1", "alice", 1, 0), ok(vec![on("dust-collector")]));
    assert_eq!(state.track_activity("saw1", true, 2), ok(vec![on("saw-light")]));
    assert_eq!(state.try_book("saw2", "bob", 3, 0), ok(vec![]));
    let released = state.try_release("saw1", 4);
    assert_eq!(released.result, Ok(()));
    assert_eq!(released.commands, vec![off("saw-light")]);
    assert_eq!(booked_machines(&state), vec!["saw2"]);
    assert!(is_protected(&state.config, &state.bookings, "saw1", "dust-collector"));
    let last = state.try_release("saw2", 5);
    assert_eq!(last.commands, vec![off("dust-collector")]);
}

#[test]
fn an_idle_booking_does_not_protect_a_short_slave() {
    let mut state = State::new(workshop());
    state.try_book("saw1", "alice", 1, 0);
    state.try_book("saw2", "bob", 2, 0);
    assert!(!is_protected(&state.config, &state.bookings, "saw1", "saw-light"));
    assert!(is_protected(&state.config, &state.bookings, "saw1", "dust-collector"));
    assert_eq!(state.track_activity("saw1", true, 3), ok(vec![on("saw-light")]));
    assert_eq!(state.track_activity("saw1", false, 4), ok(vec![off("saw-light")]));
}

#[test]
fn a_running_master_protects_a_short_slave() {
    let mut state = State::new(workshop());
    state.try_book("saw1", "alice", 1, 0);
    state.try_book("saw2", "bob", 2, 0);
    assert_eq!(state.track_activity("saw2", true, 3), ok(vec![on("saw-light")]));
    assert!(is_protected(&state.config, &state.bookings, "saw1", "saw-light"));
    assert!(!is_protected(&state.config, &state.bookings, "saw2", "saw-light"));
    assert_eq!(state.track_activity("saw1", true, 4), ok(vec![]));
    assert_eq!(state.track_activity("saw1", false, 5), ok(vec![]));
    assert_eq!(state.track_activity("saw2", false, 6), ok(vec![off("saw-light")]));
}

#[test]
fn a_slave_with_trailing_time_is_switched_off_later() {
    let mut state = State::new(workshop());
    assert_eq!(state.try_book("laser", "alice", SECOND, 0), ok(vec![on("chiller")]));
    assert_eq!(state.track_activity("laser", true, 2 * SECOND), ok(vec![on("fume-extractor")]));
    assert_eq!(state.track_activity("laser", false, 3 * SECOND), ok(vec![]));
    assert_eq!(pending(&state), vec![(3 * SECOND + SHUTDOWN_DELAY, "fume-extractor".to_string())]);
    assert!(state.perform_scheduled_shutdowns(32 * SECOND).is_empty());
    assert_eq!(state.perform_scheduled_shutdowns(33 * SECOND), vec![off("fume-extractor")]);
    assert!(pending(&state).is_empty());
}

#[test]
fn switching_on_again_calls_the_shutdown_off() {
    let mut state = State::new(workshop());
    state.try_book("laser", "alice", SECOND, 0);
    state.track_activity("laser", true, 2 * SECOND);
    state.track_activity("laser", false, 3 * SECOND);
    assert_eq!(pending(&state).len(), 1);
    assert_eq!(state.track_activity("laser", true, 10 * SECOND), ok(vec![on("fume-extractor")]));
    assert!(pending(&state).is_empty());
    for tick in 10..100 {
        assert!(state.perform_scheduled_shutdowns(tick * SECOND).is_empty());
    }
}

#[test]
fn a_release_while_running_sweeps_both_kinds() {
    let mut state = State::new(workshop());
    state.try_book("laser", "alice", SECOND, 0);
    state.track_activity("laser", true, 2 * SECOND);
    let released = state.try_release("laser", 5 * SECOND);
    assert_eq!(released.result, Ok(()));
    assert_eq!(released.commands, vec![]);
    assert_eq!(released.released.unwrap().1.runtime_accumulator, 3 * SECOND);
    assert_eq!(
        pending(&state),
        vec![
            (5 * SECOND + SHUTDOWN_DELAY, "fume-extractor".to_string()),
            (5 * SECOND + SHUTDOWN_DELAY, "chiller".to_string()),
        ]
    );
}

#[test]
fn a_release_while_idle_leaves_the_short_slaves_alone() {
    let mut state = State::new(workshop());
    state.try_book("laser", "alice", SECOND, 0);
    let released = state.try_release("laser", 5 * SECOND);
    assert_eq!(released.commands, vec![]);
    assert_eq!(pending(&state), vec![(5 * SECOND + SHUTDOWN_DELAY, "chiller".to_string())]);
    assert_eq!(released.released.unwrap().1.runtime_accumulator, 0);
}

#[test]
fn telemetry_of_an_unbooked_machine_is_spurious() {
    let mut state = State::new(workshop());
    let reaction = state.handle_payload("tele/drill/MARGINS", ON, 5, 0);
    assert_eq!(reaction, failed(Fault::UnbookedActivity(true)));
    let fault = reaction.result.unwrap_err();
    assert_eq!(fault.kind(), ErrorKind::SpuriousActivation);
    assert_eq!(fault.message(), "received activity from unbooked machine");
    assert!(state.bookings.is_empty());
    assert_eq!(state.scheduled_shutdowns.len(), 0);
    let reaction = state.handle_payload("tele/drill/MARGINS", OFF, 6, 0);
    assert_eq!(reaction, failed(Fault::UnbookedActivity(false)));
    assert_eq!(Fault::UnbookedActivity(false).kind(), ErrorKind::SpuriousDeactivation);
}

#[test]
fn a_report_of_the_state_that_is_known_is_spurious() {
    let mut state = State::new(workshop());
    state.try_book("drill", "alice", 1, 0);
    assert_eq!(state.track_activity("drill", false, 2), failed(Fault::NotRunning));
    assert_eq!(state.bookings[0].1.currently_running_since, None);
    state.track_activity("drill", true, 3);
    assert_eq!(state.track_activity("drill", true, 4), failed(Fault::AlreadyRunning));
    assert_eq!(state.bookings[0].1.currently_running_since, Some(3));
    assert_eq!(Fault::AlreadyRunning.kind(), ErrorKind::SpuriousActivation);
    assert_eq!(Fault::NotRunning.kind(), ErrorKind::SpuriousDeactivation);
    assert_eq!(Fault::AlreadyRunning.message(), "machine was turned on while already running");
    assert_eq!(
        Fault::NotRunning.message(),
        "machine was turned off without running in the first place"
    );
}

#[test]
fn releasing_a_free_machine_is_a_fault() {
    let mut state = State::new(workshop());
    assert_eq!(state.try_release("drill", 1), failed(Fault::ReleaseOfUnbooked));
    assert_eq!(Fault::ReleaseOfUnbooked.kind(), ErrorKind::ReleaseOfUnbooked);
    assert_eq!(Fault::ReleaseOfUnbooked.message(), "released unbooked machine");
    assert_eq!(state.clock, 1);
}

#[test]
fn a_master_outside_the_topology_is_reported() {
    let mut state = State::new(workshop());
    assert_eq!(state.update_slaves("lathe", true, true, true, 1), Err(Fault::UnknownMaster));
    assert_eq!(state.try_book("lathe", "alice", 2, 0), failed(Fault::UnknownMaster));
    assert_eq!(booked_machines(&state), vec!["lathe"]);
    assert_eq!(state.track_activity("lathe", true, 3), failed(Fault::UnknownMaster));
    assert!(state.bookings[0].1.is_running());
    let released = state.try_release("lathe", 4);
    assert_eq!(released.result, Err(Fault::UnknownMaster));
    assert_eq!(released.released.unwrap().1.runtime_accumulator, 1);
    assert!(state.bookings.is_empty());
    assert_eq!(Fault::UnknownMaster.kind(), ErrorKind::UnknownMaster);
    assert_eq!(Fault::UnknownMaster.message(), "unknown master");
}

#[test]
fn an_unknown_topic_is_a_fault() {
    let mut state = State::new(workshop());
    for topic in ["", "tele/drill", "tele/drill/STATE", "stat/drill/MARGINS", "tele/a/b/MARGINS", "fabaccess/log/x"] {
        assert_eq!(state.handle_payload(topic, ON, 1, 0), failed(Fault::UnknownTopic));
    }
    assert_eq!(Fault::UnknownTopic.kind(), ErrorKind::UnknownTopic);
    assert_eq!(Fault::UnknownTopic.message(), "unknown topic");
}

#[test]
fn malformed_telemetry_is_a_fault() {
    let mut state = State::new(workshop());
    state.try_book("drill", "alice", 1, 0);
    let cases = [
        ("{", Fault::InvalidJson),
        ("[]", Fault::NoMargins),
        ("{\"MARGINS\":5}", Fault::NoPowerHigh),
        ("{\"MARGINS\":{\"PowerLow\":\"ON\"}}", Fault::NoPowerHigh),
        ("{\"MARGINS\":{\"PowerHigh\":true}}", Fault::PowerHighNotText),
        ("{\"MARGINS\":{\"PowerHigh\":\"on\"}}", Fault::UnknownPowerState),
    ];
    for (payload, fault) in cases {
        assert_eq!(state.handle_payload("tele/drill/MARGINS", payload, 2, 0), failed(fault));
        assert_eq!(fault.kind(), ErrorKind::MalformedTelemetry);
        assert_eq!(read_power(payload), Err(fault));
    }
    assert!(!state.bookings[0].1.is_running());
    assert_eq!(Fault::InvalidJson.message(), "payload is not a valid json string");
    assert_eq!(Fault::NoMargins.message(), "no MARGINS data present in payload");
    assert_eq!(Fault::NoPowerHigh.message(), "no powerHigh information");
    assert_eq!(Fault::PowerHighNotText.message(), "powerHigh state was not a string");
    assert_eq!(Fault::UnknownPowerState.message(), "unknown power state");
}

#[test]
fn telemetry_with_other_members_is_read() {
    let payload = "{\"Time\":\"2024-01-01T00:00:00\",\"MARGINS\":{\"PowerLow\":\"OFF\",\"PowerHigh\":\"ON\"}}";
    assert_eq!(read_power(payload), Ok(true));
    assert_eq!(read_power(OFF), Ok(false));
    assert_eq!(decode_power("ON"), Ok(true));
    assert_eq!(decode_power("OFF"), Ok(false));
    assert_eq!(decode_power(""), Err(Fault::UnknownPowerState));
}

#[test]
fn a_booking_message_needs_three_fields() {
    let mut state = State::new(workshop());
    for payload in ["", "drill", "drill;alice", "drill;alice;booked;now"] {
        assert_eq!(state.on_booking_change(payload, 1, 0), failed(Fault::UnexpectedDataCount));
    }
    assert!(state.bookings.is_empty());
    assert_eq!(Fault::UnexpectedDataCount.kind(), ErrorKind::MalformedBooking);
    assert_eq!(Fault::UnexpectedDataCount.message(), "unexpected data count in payload");
}

#[test]
fn other_statuses_are_passed_over() {
    let mut state = State::new(workshop());
    assert_eq!(state.on_booking_change("drill;alice;reserved", 1, 0), ok(vec![]));
    assert_eq!(state.handle_payload(BOOKING_TOPIC, "drill;alice;", 2, 0), ok(vec![]));
    assert!(state.bookings.is_empty());
    assert_eq!(state.clock, 2);
}

#[test]
fn a_payload_that_is_no_text_is_passed_over() {
    let mut state = State::new(workshop());
    state.try_book("drill", "alice", 1, 0);
    assert_eq!(
        state.on_publish("tele/drill/MARGINS", vec![0xff, 0xfe], 2, 0),
        (None, failed(Fault::PayloadNotText))
    );
    assert_eq!(
        state.on_publish(BOOKING_TOPIC, vec![b'a', 0x80], 2, 0),
        (None, failed(Fault::PayloadNotText))
    );
    assert_eq!(state.clock, 1);
    assert_eq!(booked_machines(&state), vec!["drill"]);
    assert_eq!(Fault::PayloadNotText.kind(), ErrorKind::UndecodablePayload);
    assert_eq!(Fault::PayloadNotText.message(), "payload is not valid utf-8");
}

#[test]
fn a_telemetry_payload_beyond_the_limit_is_not_parsed() {
    let mut state = State::new(workshop());
    state.try_book("drill", "alice", 1, 0);
    let zeros = format!("0.{}", "0".repeat(32_769));
    assert_eq!(zeros.len(), 32_771);
    assert_eq!(get_power_state(&zeros), Err(Fault::TelemetryTooLong));
    let nested = format!("{{\"MARGINS\":{{\"PowerHigh\":{zeros}}}}}");
    assert_eq!(read_power(&nested), Err(Fault::TelemetryTooLong));
    assert_eq!(
        state.handle_payload("tele/drill/MARGINS", &nested, 2, 0),
        failed(Fault::TelemetryTooLong)
    );
    assert!(!state.bookings[0].1.is_running());
    assert_eq!(Fault::TelemetryTooLong.kind(), ErrorKind::MalformedTelemetry);
    assert_eq!(Fault::TelemetryTooLong.message(), "payload is too long");
}

#[test]
fn a_telemetry_payload_at_the_limit_is_parsed() {
    assert_eq!(MAX_TELEMETRY_LENGTH, 32_767);
    let zeros = format!("0.{}", "0".repeat(MAX_TELEMETRY_LENGTH - 2));
    assert_eq!(zeros.chars().count(), MAX_TELEMETRY_LENGTH);
    assert_eq!(get_power_state(&zeros), Err(Fault::NoMargins));
    let head = "{\"MARGINS\":{\"PowerHigh\":\"ON\"},\"pad\":\"";
    let padded = format!("{head}{}\"}}", "ä".repeat(MAX_TELEMETRY_LENGTH - head.len() - 2));
    assert_eq!(padded.chars().count(), MAX_TELEMETRY_LENGTH);
    assert_eq!(read_power(&padded), Ok(true));
    let longer = format!("{head}{}\"}}", "ä".repeat(MAX_TELEMETRY_LENGTH - head.len() - 1));
    assert_eq!(read_power(&longer), Err(Fault::TelemetryTooLong));
}

#[test]
fn the_state_stays_well_formed() {
    let mut state = State::new(workshop());
    assert!(state.is_well_formed());
    state.try_book("laser", "alice", SECOND, 0);
    state.track_activity("laser", true, 2 * SECOND);
    state.track_activity("laser", false, 3 * SECOND);
    state.try_book("saw1", "bob", 4 * SECOND, 0);
    assert!(state.is_well_formed());
    state.try_release("laser", 5 * SECOND);
    state.perform_scheduled_shutdowns(40 * SECOND);
    assert!(state.is_well_formed());
}

#[test]
fn a_state_that_was_tampered_with_is_not_well_formed() {
    let mut state = State::new(workshop());
    state.try_book("laser", "alice", SECOND, 0);
    state.track_activity("laser", true, 2 * SECOND);
    state.track_activity("laser", false, 3 * SECOND);
    assert!(state.is_well_formed());
    assert!(state.accepts(3 * SECOND));
    assert!(!state.accepts(3 * SECOND - 1));

    let mut twice = state.clone();
    twice.bookings.push(("laser".to_string(), Booking::new("bob".to_string(), 0, 0)));
    assert!(!twice.is_well_formed());

    let mut early = state.clone();
    early.clock = 2 * SECOND;
    assert!(!early.is_well_formed());

    let mut unknown = state.clone();
    unknown.scheduled_shutdowns.schedule("ghost".to_string(), 3 * SECOND);
    assert!(!unknown.is_well_formed());

    let mut unordered = state.clone();
    unordered.scheduled_shutdowns.schedule("chiller".to_string(), 0);
    assert!(!unordered.is_well_formed());

    let mut late = state.clone();
    late.scheduled_shutdowns.schedule("chiller".to_string(), 4 * SECOND);
    assert!(!late.is_well_formed());

    let mut overrun = state.clone();
    overrun.bookings[0].1.runtime_accumulator = 10 * SECOND;
    assert!(!overrun.is_well_formed());

    let mut config = workshop();
    config.slave_properties.clear();
    assert!(!config.is_well_formed());
}

#[test]
fn commands_carry_the_topic_and_payload_of_the_profile() {
    let profile = Slave {
        runs_continuously: false,
        needs_trailing_time: false,
        topic: "shellies/fan/relay/0/command".to_string(),
        payload_on: "on".to_string(),
        payload_off: "off".to_string(),
    };
    assert_eq!(
        set_power_state(&profile, true),
        Publish { topic: "shellies/fan/relay/0/command".to_string(), payload: "on".to_string() }
    );
    assert_eq!(
        set_power_state(&profile, false),
        Publish { topic: "shellies/fan/relay/0/command".to_string(), payload: "off".to_string() }
    );
}

#[test]
fn update_slaves_honours_the_kinds_it_is_allowed() {
    let mut state = State::new(workshop());
    assert_eq!(state.update_slaves("saw1", false, false, true, 1), Ok(vec![]));
    assert_eq!(state.update_slaves("saw1", true, false, true, 2), Ok(vec![on("saw-light")]));
    assert_eq!(state.update_slaves("saw1", false, true, true, 3), Ok(vec![on("dust-collector")]));
    assert_eq!(
        state.update_slaves("saw1", true, true, false, 4),
        Ok(vec![off("dust-collector"), off("saw-light")])
    );
    assert_eq!(state.update_slaves("printer", true, true, true, 5), Ok(vec![]));
}

#[test]
fn a_master_that_lists_a_slave_without_a_profile_is_refused() {
    let mut config = workshop();
    config.slaves_by_master.push(master("mill", &["ghost", "drill-light"]));
    assert!(!config.is_well_formed());
}

#[test]
fn the_booking_topic_is_fixed() {
    assert_eq!(BOOKING_TOPIC, "fabaccess/log");
}
