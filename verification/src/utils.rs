//! Reading telemetry and telling time.

use vstd::prelude::*;
use vstd::string::StringExecFns;
use crate::utils::fault::Fault;
use crate::utils::table::{find, lookup};
use crate::utils::text::{decimal, decimal_string};

pub mod booking;
pub mod fault;
pub mod logs;
pub mod table;
pub mod text;

verus! {

/// Number of nanoseconds in a second. All durations and instants of this
/// crate are whole nanoseconds held in a `u64`.
pub const NANOS_PER_SEC: u64 = 1_000_000_000;

/// Whole seconds contained in a duration.
pub open spec fn whole_seconds(duration: u64) -> int {
    duration as int / NANOS_PER_SEC as int
}

/// Whether this duration crossed a minute boundary within the last second.
pub fn minute_mark(duration: u64) -> (mark: bool)
    ensures
        mark == (whole_seconds(duration) % 60 == 0),
{
    (duration / NANOS_PER_SEC) % 60 == 0
}

/// Number of nanoseconds in a minute.
pub const NANOS_PER_MINUTE: u64 = 60_000_000_000;

/// Minutes that a duration has begun: its whole minutes, and one more for
/// a minute that is not yet full.
pub open spec fn minutes_begun(duration: u64) -> int {
    if duration as int % NANOS_PER_MINUTE as int == 0 {
        duration as int / NANOS_PER_MINUTE as int
    } else {
        duration as int / NANOS_PER_MINUTE as int + 1
    }
}

/// A number of minutes as hours and minutes: the hours in decimal, a
/// colon, and the minutes of the hour in two digits.
pub open spec fn hours_and_minutes(total_minutes: int) -> Seq<char> {
    let hours = (total_minutes / 60) as nat;
    let minutes = (total_minutes % 60) as nat;
    decimal(hours) + seq![':'] + if minutes < 10 {
        seq!['0'] + decimal(minutes)
    } else {
        decimal(minutes)
    }
}

/// The text that a display shows for a runtime: the minutes that have
/// begun, as hours and minutes.
pub fn create_display_time_string(runtime: u64) -> (text: String)
    ensures
        text@ == hours_and_minutes(minutes_begun(runtime)),
{
    let mut total_minutes: u64 = runtime / NANOS_PER_MINUTE;
    if runtime % NANOS_PER_MINUTE != 0 {
        total_minutes = total_minutes + 1;
    }
    let hours: u64 = total_minutes / 60;
    let minutes: u64 = total_minutes % 60;
    let mut text = decimal_string(hours);
    proof {
        reveal_strlit(":");
        reveal_strlit("0");
    }
    text.append(":");
    if minutes < 10 {
        text.append("0");
    }
    let minutes_text = decimal_string(minutes);
    text.append(minutes_text.as_str());
    assert(text@ =~= hours_and_minutes(minutes_begun(runtime)));
    text
}

/// The members of an object: each key with the value where that is a
/// string.
pub type Members = Seq<(Seq<char>, Option<Seq<char>>)>;

/// The members of the top-level object of a document: each key with the
/// members of its value. A value that is no object has no members.
pub type Document = Seq<(Seq<char>, Members)>;

/// What `json::parse` makes of a text, as far as telemetry is read: `None`
/// where it rejects the text, else the members of the top-level object in
/// their order, each with the members of its own value.
pub uninterp spec fn json_document(text: Seq<char>) -> Option<Document>;

/// The longest telemetry payload that is read, in characters. The parser
/// counts the digits of a fraction in sixteen bits; a text of this length
/// cannot hold more digits than that counter takes.
pub const MAX_TELEMETRY_LENGTH: usize = 32_767;

/// Parses `payload` with `json::parse` and lists the entries of the
/// result, and under each the entries of its value with the value's
/// `as_str`. The outcome is a function of the text alone; nothing more is
/// claimed of it. Longer texts are left out: on a number with more than
/// 32,768 digits behind the point the parser's count of them overflows.
#[verifier::external_body]
fn parse_document(payload: &str) -> (document: Option<Vec<(String, Vec<(String, Option<String>)>)>>)
    requires
        payload@.len() <= MAX_TELEMETRY_LENGTH,
    ensures
        document.deep_view() == json_document(payload@),
{
    let parsed = json::parse(payload).ok()?;
    Some(parsed.entries().map(|(key, value)| {
        let members = value.entries().map(|(key, value)| {
            (key.to_string(), value.as_str().map(str::to_string))
        });
        (key.to_string(), members.collect())
    }).collect())
}

/// The power state that a document reports: the string under `PowerHigh`
/// in the object under `MARGINS`.
pub open spec fn power_high(document: Option<Document>) -> Result<Seq<char>, Fault> {
    match document {
        None => Err(Fault::InvalidJson),
        Some(sections) => match lookup(sections, "MARGINS"@) {
            None => Err(Fault::NoMargins),
            Some(margins) => match lookup(margins, "PowerHigh"@) {
                None => Err(Fault::NoPowerHigh),
                Some(None) => Err(Fault::PowerHighNotText),
                Some(Some(state)) => Ok(state),
            },
        },
    }
}

/// Finds the power state that a parsed document reports.
pub fn find_power_state(document: Option<Vec<(String, Vec<(String, Option<String>)>)>>) -> (state:
    Result<String, Fault>)
    ensures
        match state {
            Ok(state) => power_high(document.deep_view()) == Ok::<Seq<char>, Fault>(state@),
            Err(fault) => power_high(document.deep_view()) == Err::<Seq<char>, Fault>(fault),
        },
{
    let sections = match document {
        Some(sections) => sections,
        None => {
            return Err(Fault::InvalidJson);
        },
    };
    let margins = match find(&sections, "MARGINS") {
        Some(at) => &sections[at].1,
        None => {
            return Err(Fault::NoMargins);
        },
    };
    match find(margins, "PowerHigh") {
        Some(at) => match &margins[at].1 {
            Some(state) => Ok(state.clone()),
            None => Err(Fault::PowerHighNotText),
        },
        None => Err(Fault::NoPowerHigh),
    }
}

/// The power state that a telemetry payload reports: that of the document
/// that the payload parses to. A payload of more than
/// [`MAX_TELEMETRY_LENGTH`] characters is not parsed and reports none.
pub open spec fn reported_state(payload: Seq<char>) -> Result<Seq<char>, Fault> {
    if payload.len() > MAX_TELEMETRY_LENGTH {
        Err(Fault::TelemetryTooLong)
    } else {
        power_high(json_document(payload))
    }
}

/// Reads the power state out of a telemetry payload.
pub fn get_power_state(payload: &str) -> (state: Result<String, Fault>)
    ensures
        match state {
            Ok(state) => reported_state(payload@) == Ok::<Seq<char>, Fault>(state@),
            Err(fault) => reported_state(payload@) == Err::<Seq<char>, Fault>(fault),
        },
{
    if payload.unicode_len() > MAX_TELEMETRY_LENGTH {
        return Err(Fault::TelemetryTooLong);
    }
    find_power_state(parse_document(payload))
}

} // verus!
