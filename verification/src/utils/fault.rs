//! The faults that a message can run into.

use vstd::prelude::*;

verus! {

/// The kinds of fault. Each is reported with the message that caused it;
/// none stops the dispatcher.
#[derive(Debug, Clone, Copy, PartialEq, Eq, Structural)]
pub enum ErrorKind {
    /// A machine was booked that is booked already.
    DoubleBooking,
    /// A machine was released that is not booked.
    ReleaseOfUnbooked,
    /// A machine reported power that was not expected to.
    SpuriousActivation,
    /// A machine reported loss of power that was not running.
    SpuriousDeactivation,
    /// A master is not part of the topology.
    UnknownMaster,
    /// The topic is neither telemetry nor the booking topic.
    UnknownTopic,
    /// The payload is no text.
    UndecodablePayload,
    /// A telemetry payload does not tell the power state.
    MalformedTelemetry,
    /// A booking payload does not have the expected fields.
    MalformedBooking,
}

/// What went wrong with a message.
#[derive(Debug, Clone, Copy, PartialEq, Eq, Structural)]
pub enum Fault {
    UnknownTopic,
    /// The payload is no text.
    PayloadNotText,
    UnexpectedDataCount,
    DoubleBooking,
    ReleaseOfUnbooked,
    /// A telemetry payload is longer than any that is read.
    TelemetryTooLong,
    InvalidJson,
    NoMargins,
    NoPowerHigh,
    PowerHighNotText,
    UnknownPowerState,
    /// Telemetry of a machine that is not booked; the field is the power
    /// state that it reported.
    UnbookedActivity(bool),
    AlreadyRunning,
    NotRunning,
    UnknownMaster,
}

impl Fault {
    /// The kind of the fault.
    pub open spec fn spec_kind(self) -> ErrorKind {
        match self {
            Fault::UnknownTopic => ErrorKind::UnknownTopic,
            Fault::PayloadNotText => ErrorKind::UndecodablePayload,
            Fault::UnexpectedDataCount => ErrorKind::MalformedBooking,
            Fault::DoubleBooking => ErrorKind::DoubleBooking,
            Fault::ReleaseOfUnbooked => ErrorKind::ReleaseOfUnbooked,
            Fault::TelemetryTooLong => ErrorKind::MalformedTelemetry,
            Fault::InvalidJson => ErrorKind::MalformedTelemetry,
            Fault::NoMargins => ErrorKind::MalformedTelemetry,
            Fault::NoPowerHigh => ErrorKind::MalformedTelemetry,
            Fault::PowerHighNotText => ErrorKind::MalformedTelemetry,
            Fault::UnknownPowerState => ErrorKind::MalformedTelemetry,
            Fault::UnbookedActivity(power) => if power {
                ErrorKind::SpuriousActivation
            } else {
                ErrorKind::SpuriousDeactivation
            },
            Fault::AlreadyRunning => ErrorKind::SpuriousActivation,
            Fault::NotRunning => ErrorKind::SpuriousDeactivation,
            Fault::UnknownMaster => ErrorKind::UnknownMaster,
        }
    }

    /// The text under which the fault is reported.
    pub open spec fn spec_message(self) -> Seq<char> {
        match self {
            Fault::UnknownTopic => "unknown topic"@,
            Fault::PayloadNotText => "payload is not valid utf-8"@,
            Fault::TelemetryTooLong => "payload is too long"@,
            Fault::UnexpectedDataCount => "unexpected data count in payload"@,
            Fault::DoubleBooking => "machine got double-booked"@,
            Fault::ReleaseOfUnbooked => "released unbooked machine"@,
            Fault::InvalidJson => "payload is not a valid json string"@,
            Fault::NoMargins => "no MARGINS data present in payload"@,
            Fault::NoPowerHigh => "no powerHigh information"@,
            Fault::PowerHighNotText => "powerHigh state was not a string"@,
            Fault::UnknownPowerState => "unknown power state"@,
            Fault::UnbookedActivity(_) => "received activity from unbooked machine"@,
            Fault::AlreadyRunning => "machine was turned on while already running"@,
            Fault::NotRunning => "machine was turned off without running in the first place"@,
            Fault::UnknownMaster => "unknown master"@,
        }
    }

    /// The kind of the fault.
    #[verifier::when_used_as_spec(spec_kind)]
    pub fn kind(self) -> (kind: ErrorKind)
        ensures
            kind == self.spec_kind(),
    {
        match self {
            Fault::UnknownTopic => ErrorKind::UnknownTopic,
            Fault::PayloadNotText => ErrorKind::UndecodablePayload,
            Fault::UnexpectedDataCount => ErrorKind::MalformedBooking,
            Fault::DoubleBooking => ErrorKind::DoubleBooking,
            Fault::ReleaseOfUnbooked => ErrorKind::ReleaseOfUnbooked,
            Fault::TelemetryTooLong
            | Fault::InvalidJson
            | Fault::NoMargins
            | Fault::NoPowerHigh
            | Fault::PowerHighNotText
            | Fault::UnknownPowerState => ErrorKind::MalformedTelemetry,
            Fault::UnbookedActivity(true) | Fault::AlreadyRunning => ErrorKind::SpuriousActivation,
            Fault::UnbookedActivity(false) | Fault::NotRunning => ErrorKind::SpuriousDeactivation,
            Fault::UnknownMaster => ErrorKind::UnknownMaster,
        }
    }

    /// The text under which the fault is reported.
    pub fn message(self) -> (message: &'static str)
        ensures
            message@ == self.spec_message(),
    {
        match self {
            Fault::UnknownTopic => "unknown topic",
            Fault::PayloadNotText => "payload is not valid utf-8",
            Fault::TelemetryTooLong => "payload is too long",
            Fault::UnexpectedDataCount => "unexpected data count in payload",
            Fault::DoubleBooking => "machine got double-booked",
            Fault::ReleaseOfUnbooked => "released unbooked machine",
            Fault::InvalidJson => "payload is not a valid json string",
            Fault::NoMargins => "no MARGINS data present in payload",
            Fault::NoPowerHigh => "no powerHigh information",
            Fault::PowerHighNotText => "powerHigh state was not a string",
            Fault::UnknownPowerState => "unknown power state",
            Fault::UnbookedActivity(_) => "received activity from unbooked machine",
            Fault::AlreadyRunning => "machine was turned on while already running",
            Fault::NotRunning => "machine was turned off without running in the first place",
            Fault::UnknownMaster => "unknown master",
        }
    }
}

} // verus!
