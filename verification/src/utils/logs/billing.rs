//! What a booking costs: who is billed for what, and for how long.

use vstd::prelude::*;
use crate::config::{MachineData, SpacerConfig};
use crate::utils::booking::{Booking, BookingView};
use crate::utils::table::{find, lookup};
use crate::utils::text::{signed_decimal, signed_decimal_string};

verus! {

/// One line of the billing log, but for the date and the number of units,
/// which the program that writes the log works out from `billed_time` and
/// `divider`.
#[derive(Debug, Clone, PartialEq, Eq)]
pub struct BillingRecord {
    /// The identifier of the user, or the name where there is none.
    pub user_id: String,
    pub quelle: String,
    pub brutto_netto: i32,
    /// The article of the machine, or its name where there is none.
    pub artikel_id: String,
    /// The time to bill, in nanoseconds: the runtime of a machine that
    /// senses power, else the time the machine was booked.
    pub billed_time: u64,
    /// Number of minutes that make one billed unit.
    pub divider: i32,
    pub rechnungstyp: i32,
}

/// A [`BillingRecord`] with its strings as character sequences.
pub struct BillingRecordView {
    pub user_id: Seq<char>,
    pub quelle: Seq<char>,
    pub brutto_netto: i32,
    pub artikel_id: Seq<char>,
    pub billed_time: u64,
    pub divider: i32,
    pub rechnungstyp: i32,
}

impl View for BillingRecord {
    type V = BillingRecordView;

    open spec fn view(&self) -> BillingRecordView {
        BillingRecordView {
            user_id: self.user_id@,
            quelle: self.quelle@,
            brutto_netto: self.brutto_netto,
            artikel_id: self.artikel_id@,
            billed_time: self.billed_time,
            divider: self.divider,
            rechnungstyp: self.rechnungstyp,
        }
    }
}

impl DeepView for BillingRecord {
    type V = BillingRecordView;

    open spec fn deep_view(&self) -> BillingRecordView {
        self@
    }
}

/// The data under which a machine is billed that the directory does not
/// list: by its name, for its runtime, minute by minute.
pub open spec fn unlisted_machine() -> MachineData {
    MachineData { id: None, to_be_used: true, power_sense: true, divider: 1 }
}

/// An identifier in decimal, or the name where there is none.
pub open spec fn reference(id: Option<i32>, name: Seq<char>) -> Seq<char> {
    match id {
        Some(id) => signed_decimal(id as int),
        None => name,
    }
}

/// The time since the booking was made.
pub open spec fn booked_time(booking: BookingView, now: u64) -> int {
    if booking.creation_instant <= now {
        now - booking.creation_instant
    } else {
        0
    }
}

/// The line of the billing log for a booking that ended at `now`: none
/// where the user or the machine is marked as not to be billed.
pub open spec fn bill(config: &SpacerConfig, machine: Seq<char>, booking: BookingView, now: u64) -> Option<
    BillingRecordView,
> {
    let user = lookup(config.data_user.deep_view(), booking.user);
    let data = match lookup(config.data_machines.deep_view(), machine) {
        Some(data) => data,
        None => unlisted_machine(),
    };
    if user matches Some(user) && !user.to_be_used {
        None
    } else if !data.to_be_used {
        None
    } else {
        Some(
            BillingRecordView {
                user_id: match user {
                    Some(user) => reference(user.id, booking.user),
                    None => booking.user,
                },
                quelle: "allgemeiner Beleg"@,
                brutto_netto: 2,
                artikel_id: reference(data.id, machine),
                billed_time: if data.power_sense {
                    booking.total_runtime(now) as u64
                } else {
                    booked_time(booking, now) as u64
                },
                divider: data.divider,
                rechnungstyp: 0,
            },
        )
    }
}

/// Writes an identifier in decimal, or the name where there is none.
pub fn reference_string(id: Option<i32>, name: &str) -> (text: String)
    ensures
        text@ == reference(id, name@),
{
    match id {
        Some(id) => signed_decimal_string(id),
        None => name.to_owned(),
    }
}

/// Works out the line of the billing log for a booking of `machine` that
/// ended at `now`.
pub fn billinglog(machine: &str, booking: &Booking, config: &SpacerConfig, now: u64) -> (record:
    Option<BillingRecord>)
    requires
        booking@.wf(),
    ensures
        record.deep_view() == bill(config, machine@, booking@, now),
{
    let user_id = match find(&config.data_user, booking.user.as_str()) {
        Some(at) => {
            let user = &config.data_user[at].1;
            assert(lookup(config.data_user.deep_view(), booking@.user) == Some(*user));
            if !user.to_be_used {
                return None;
            }
            reference_string(user.id, booking.user.as_str())
        },
        None => booking.user.clone(),
    };
    let data = match find(&config.data_machines, machine) {
        Some(at) => {
            assert(lookup(config.data_machines.deep_view(), machine@) == Some(
                config.data_machines[at as int].1,
            ));
            config.data_machines[at].1
        },
        None => MachineData { id: None, to_be_used: true, power_sense: true, divider: 1 },
    };
    if !data.to_be_used {
        return None;
    }
    let artikel_id = reference_string(data.id, machine);
    let billed_time = if data.power_sense {
        booking.total_runtime(now)
    } else if booking.creation_instant <= now {
        now - booking.creation_instant
    } else {
        0
    };
    Some(
        BillingRecord {
            user_id,
            quelle: "allgemeiner Beleg".to_owned(),
            brutto_netto: 2,
            artikel_id,
            billed_time,
            divider: data.divider,
            rechnungstyp: 0,
        },
    )
}

} // verus!
