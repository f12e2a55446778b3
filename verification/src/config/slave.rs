//! The actuation profile of one switchable outlet.

use vstd::prelude::*;

verus! {

/// How one slave is switched and which protections it enjoys.
#[derive(Debug, Clone, PartialEq, Eq, Hash)]
pub struct Slave {
    /// The slave stays powered for as long as any master that it serves is
    /// booked, not only while that master draws power.
    pub runs_continuously: bool,
    /// Power is cut only after a fixed delay, so that dependent hardware
    /// can settle.
    pub needs_trailing_time: bool,
    /// Bus topic of the actuator.
    pub topic: String,
    /// Payload that switches the actuator on.
    pub payload_on: String,
    /// Payload that switches the actuator off.
    pub payload_off: String,
}

/// A [`Slave`] with its strings as character sequences.
pub struct SlaveView {
    pub runs_continuously: bool,
    pub needs_trailing_time: bool,
    pub topic: Seq<char>,
    pub payload_on: Seq<char>,
    pub payload_off: Seq<char>,
}

impl View for Slave {
    type V = SlaveView;

    open spec fn view(&self) -> SlaveView {
        SlaveView {
            runs_continuously: self.runs_continuously,
            needs_trailing_time: self.needs_trailing_time,
            topic: self.topic@,
            payload_on: self.payload_on@,
            payload_off: self.payload_off@,
        }
    }
}

impl DeepView for Slave {
    type V = SlaveView;

    open spec fn deep_view(&self) -> SlaveView {
        self@
    }
}

impl SlaveView {
    /// The payload that brings the slave to the power state `power`.
    pub open spec fn payload(self, power: bool) -> Seq<char> {
        if power {
            self.payload_on
        } else {
            self.payload_off
        }
    }
}

} // verus!
