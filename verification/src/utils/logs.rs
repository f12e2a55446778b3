//! What goes to the logs.

use vstd::prelude::*;
use vstd::string::StringExecFns;
use crate::utils::booking::{Booking, BookingView};
use crate::utils::fault::Fault;
use crate::utils::logs::billing::booked_time;

pub mod billing;

verus! {

/// The text under which the outcome of a message is logged: `ok`, or the
/// text of the fault.
pub open spec fn outcome_text(result: Result<(), Fault>) -> Seq<char> {
    match result {
        Ok(_) => "ok"@,
        Err(fault) => fault.spec_message(),
    }
}

/// The entry of the debug log for one message: on a line each the time,
/// the topic, the payload and the outcome, after a line break.
pub open spec fn debug_entry(
    time: Seq<char>,
    topic: Seq<char>,
    payload: Seq<char>,
    result: Result<(), Fault>,
) -> Seq<char> {
    "\ntime:    "@ + time + "\ntopic:   "@ + topic + "\npayload: "@ + payload + "\nresult:  "@
        + outcome_text(result)
}

/// Writes the entry of the debug log for one message.
pub fn log_debug(time: &str, topic: &str, payload: &str, result: Result<(), Fault>) -> (entry: String)
    ensures
        entry@ == debug_entry(time@, topic@, payload@, result),
{
    let outcome = match result {
        Ok(_) => "ok",
        Err(fault) => fault.message(),
    };
    let mut entry = "\ntime:    ".to_owned();
    entry.append(time);
    entry.append("\ntopic:   ");
    entry.append(topic);
    entry.append("\npayload: ");
    entry.append(payload);
    entry.append("\nresult:  ");
    entry.append(outcome);
    assert(entry@ =~= debug_entry(time@, topic@, payload@, result));
    entry
}

/// What the usage log says of a booking that has ended, but for the
/// calendar date and the time of day, which the program that writes the log
/// works out from `booked_at` and its own clock.
#[derive(Debug, Clone, PartialEq, Eq)]
pub struct Record {
    pub machine: String,
    /// Wall-clock time of the reservation, in nanoseconds since the Unix
    /// epoch.
    pub booked_at: i64,
    /// Time from the reservation to the release, in nanoseconds.
    pub booking_duration: u64,
    /// Time the machine ran, in nanoseconds.
    pub runtime: u64,
    pub user: String,
}

/// A [`Record`] with its strings as character sequences.
pub struct RecordView {
    pub machine: Seq<char>,
    pub booked_at: i64,
    pub booking_duration: u64,
    pub runtime: u64,
    pub user: Seq<char>,
}

impl View for Record {
    type V = RecordView;

    open spec fn view(&self) -> RecordView {
        RecordView {
            machine: self.machine@,
            booked_at: self.booked_at,
            booking_duration: self.booking_duration,
            runtime: self.runtime,
            user: self.user@,
        }
    }
}

/// The entry of the usage log for a booking of `machine` that ended at
/// `now`.
pub open spec fn usage(machine: Seq<char>, booking: BookingView, now: u64) -> RecordView {
    RecordView {
        machine,
        booked_at: booking.creation_datetime,
        booking_duration: booked_time(booking, now) as u64,
        runtime: booking.total_runtime(now) as u64,
        user: booking.user,
    }
}

/// Works out the entry of the usage log for a booking of `machine` that
/// ended at `now`.
pub fn machinelog(machine: &str, booking: &Booking, now: u64) -> (record: Record)
    requires
        booking@.wf(),
    ensures
        record@ == usage(machine@, booking@, now),
{
    let booking_duration: u64 = if booking.creation_instant <= now {
        now - booking.creation_instant
    } else {
        0
    };
    Record {
        machine: machine.to_owned(),
        booked_at: booking.creation_datetime,
        booking_duration,
        runtime: booking.total_runtime(now),
        user: booking.user.clone(),
    }
}

} // verus!
