use spacermake::config::{MachineData, SpacerConfig, UserData};
use spacermake::utils::booking::Booking;
use spacermake::utils::fault::Fault;
use spacermake::utils::logs::billing::{billinglog, reference_string, BillingRecord};
use spacermake::utils::logs::{log_debug, machinelog, Record};

fn config(users: Vec<(&str, UserData)>, machines: Vec<(&str, MachineData)>) -> SpacerConfig {
    SpacerConfig {
        slaves_by_master: Vec::new(),
        slave_properties: Vec::new(),
        machine_ids: Vec::new(),
        data_user: users.into_iter().map(|(name, data)| (name.to_string(), data)).collect(),
        data_machines: machines.into_iter().map(|(name, data)| (name.to_string(), data)).collect(),
        billing_log: String::new(),
        machine_log: String::new(),
        debug_log: String::new(),
        mqtt_host: String::new(),
        mqtt_username: None,
        mqtt_password: None,
        fabaccess_host: String::new(),
        fabaccess_port: 0,
    }
}

fn booking() -> Booking {
    Booking {
        user: "alice".to_string(),
        creation_datetime: 99,
        creation_instant: 1_000,
        currently_running_since: None,
        runtime_accumulator: 400,
    }
}

fn record(user_id: &str, artikel_id: &str, billed_time: u64, divider: i32) -> Option<BillingRecord> {
    Some(BillingRecord {
        user_id: user_id.to_string(),
        quelle: "allgemeiner Beleg".to_string(),
        brutto_netto: 2,
        artikel_id: artikel_id.to_string(),
        billed_time,
        divider,
        rechnungstyp: 0,
    })
}

#[test]
fn the_debug_entry_lists_time_topic_payload_and_result() {
    assert_eq!(
        log_debug("2024-05-01 12:00:00", "fabaccess/log", "drill;alice;booked", Ok(())),
        "\ntime:    2024-05-01 12:00:00\ntopic:   fabaccess/log\npayload: drill;alice;booked\nresult:  ok"
    );
    assert_eq!(
        log_debug("t", "x", "", Err(Fault::UnknownTopic)),
        "\ntime:    t\ntopic:   x\npayload: \nresult:  unknown topic"
    );
}

#[test]
fn the_usage_record_measures_from_the_booking_to_the_release() {
    assert_eq!(
        machinelog("drill", &booking(), 3_000),
        Record {
            machine: "drill".to_string(),
            booked_at: 99,
            booking_duration: 2_000,
            runtime: 400,
            user: "alice".to_string(),
        }
    );
    let mut running = booking();
    running.currently_running_since = Some(2_500);
    assert_eq!(machinelog("drill", &running, 3_000).runtime, 900);
    assert_eq!(machinelog("drill", &booking(), 500).booking_duration, 0);
}

#[test]
fn an_unlisted_user_on_an_unlisted_machine_is_billed_by_name_for_the_runtime() {
    let config = config(vec![], vec![]);
    assert_eq!(billinglog("drill", &booking(), &config, 3_000), record("alice", "drill", 400, 1));
}

#[test]
fn identifiers_stand_in_for_names() {
    let config = config(
        vec![("alice", UserData { id: Some(17), to_be_used: true })],
        vec![("drill", MachineData { id: Some(-4), to_be_used: true, power_sense: true, divider: 15 })],
    );
    assert_eq!(billinglog("drill", &booking(), &config, 3_000), record("17", "-4", 400, 15));
    assert_eq!(reference_string(Some(0), "x"), "0");
    assert_eq!(reference_string(Some(i32::MIN), "x"), "-2147483648");
    assert_eq!(reference_string(Some(i32::MAX), "x"), "2147483647");
    assert_eq!(reference_string(None, "x"), "x");
}

#[test]
fn a_machine_that_does_not_sense_power_is_billed_for_the_booked_time() {
    let config = config(
        vec![("alice", UserData { id: None, to_be_used: true })],
        vec![("drill", MachineData { id: None, to_be_used: true, power_sense: false, divider: 1 })],
    );
    assert_eq!(billinglog("drill", &booking(), &config, 3_000), record("alice", "drill", 2_000, 1));
}

#[test]
fn users_and_machines_can_be_exempt() {
    let exempt_user = config(vec![("alice", UserData { id: Some(1), to_be_used: false })], vec![]);
    assert_eq!(billinglog("drill", &booking(), &exempt_user, 3_000), None);
    let exempt_machine = config(
        vec![],
        vec![("drill", MachineData { id: Some(1), to_be_used: false, power_sense: true, divider: 1 })],
    );
    assert_eq!(billinglog("drill", &booking(), &exempt_machine, 3_000), None);
    assert!(billinglog("saw", &booking(), &exempt_machine, 3_000).is_some());
}
