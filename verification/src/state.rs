//! The booking ledger and the queue of delayed shutdowns.
//!
//! [`State`] is everything the two workers share. The listener reacts to the
//! messages of the bus (see [`listener`]), the announcer to the tick of a
//! timer (see [`announcer`]). Both are handed the current instant and
//! return the messages to publish.

use vstd::prelude::*;
use crate::config::SpacerConfig;
use crate::config::slave::{Slave, SlaveView};
use crate::state::schedule::{in_order, within_delay, Pending, ShutdownQueue, LATEST_INSTANT};
use crate::utils::booking::{Booking, BookingView};
use crate::utils::table::{find, names};

pub mod announcer;
pub mod laws;
pub mod listener;
pub mod schedule;

verus! {

/// A message for the bus.
#[derive(Debug, Clone, PartialEq, Eq)]
pub struct Publish {
    pub topic: String,
    pub payload: String,
}

/// A [`Publish`] with its strings as character sequences.
pub struct PublishView {
    pub topic: Seq<char>,
    pub payload: Seq<char>,
}

impl View for Publish {
    type V = PublishView;

    open spec fn view(&self) -> PublishView {
        PublishView { topic: self.topic@, payload: self.payload@ }
    }
}

impl DeepView for Publish {
    type V = PublishView;

    open spec fn deep_view(&self) -> PublishView {
        self@
    }
}

/// The message that brings a slave to the power state `power`: the
/// payload for that state, sent to the topic of its actuator.
pub open spec fn command(profile: SlaveView, power: bool) -> PublishView {
    PublishView { topic: profile.topic, payload: profile.payload(power) }
}

/// Builds the message that brings a slave to the power state `power`.
pub fn set_power_state(profile: &Slave, new_state: bool) -> (message: Publish)
    ensures
        message@ == command(profile@, new_state),
{
    let payload = if new_state {
        profile.payload_on.clone()
    } else {
        profile.payload_off.clone()
    };
    Publish { topic: profile.topic.clone(), payload }
}

/// The ledger as a table from machine name to booking.
pub type Ledger = Seq<(Seq<char>, BookingView)>;

/// What both workers share: the configuration, the ledger of bookings, the
/// queue of delayed shutdowns and the latest instant seen.
#[derive(Debug, Clone)]
pub struct State {
    pub config: SpacerConfig,
    /// The reserved machines, each with its booking, in the order in which
    /// they were booked.
    pub bookings: Vec<(String, Booking)>,
    pub scheduled_shutdowns: ShutdownQueue,
    /// The latest instant that was handed in.
    pub clock: u64,
}

/// The parts of a [`State`] that change.
pub struct StateView {
    pub ledger: Ledger,
    pub queue: Seq<Pending>,
    pub clock: u64,
}

impl View for State {
    type V = StateView;

    open spec fn view(&self) -> StateView {
        StateView {
            ledger: self.bookings.deep_view(),
            queue: self.scheduled_shutdowns@,
            clock: self.clock,
        }
    }
}

impl StateView {
    /// No machine is booked twice, no booking has seen an instant later
    /// than the clock, and the queue is ordered with every deadline within
    /// the delay of the clock.
    pub open spec fn wf(self) -> bool {
        &&& names(self.ledger).no_duplicates()
        &&& forall|at: int|
            0 <= at < self.ledger.len() ==> {
                &&& (#[trigger] self.ledger[at]).1.wf()
                &&& self.ledger[at].1.settled_by() <= self.clock
            }
        &&& in_order(self.queue)
        &&& within_delay(self.queue, self.clock)
    }

    /// Whether `now` can follow the clock: time does not run backwards, and
    /// a deadline after `now` can still be told.
    pub open spec fn accepts(self, now: u64) -> bool {
        self.clock <= now <= LATEST_INSTANT
    }

    /// The state at `now`, nothing else changed.
    pub open spec fn at(self, now: u64) -> StateView {
        StateView { clock: now, ..self }
    }
}

/// Every slave in the queue has a profile.
pub open spec fn known(config: &SpacerConfig, queue: Seq<Pending>) -> bool {
    forall|at: int| 0 <= at < queue.len() ==> config.profile((#[trigger] queue[at]).1) is Some
}

/// A state fits a configuration: the configuration is usable, the state is
/// well-formed, and every slave that waits for its shutdown has a profile.
pub open spec fn sound(config: &SpacerConfig, state: StateView) -> bool {
    &&& config.wf()
    &&& state.wf()
    &&& known(config, state.queue)
}

/// Moving the clock forward keeps a state well-formed.
pub proof fn lemma_time_passes(state: StateView, now: u64)
    requires
        state.wf(),
        state.clock <= now,
    ensures
        state.at(now).wf(),
{
    assert forall|at: int| 0 <= at < state.queue.len() implies (#[trigger] state.queue[at]).0 <= now
        + crate::state::schedule::SHUTDOWN_DELAY by {}
}

impl State {
    /// The state fits its configuration, see [`sound`].
    pub open spec fn wf(&self) -> bool {
        sound(&self.config, self@)
    }

    /// A state without bookings or pending shutdowns, at instant zero.
    pub fn new(config: SpacerConfig) -> (state: State)
        requires
            config.wf(),
        ensures
            state.config == config,
            state@.ledger == Seq::<(Seq<char>, BookingView)>::empty(),
            state@.queue == Seq::<Pending>::empty(),
            state@.clock == 0,
            state.wf(),
    {
        let state = State {
            config,
            bookings: Vec::new(),
            scheduled_shutdowns: ShutdownQueue::new(),
            clock: 0,
        };
        assert(state@.ledger =~= Seq::<(Seq<char>, BookingView)>::empty());
        state
    }

    /// Checks what [`State::wf`] states.
    pub fn is_well_formed(&self) -> (well_formed: bool)
        ensures
            well_formed == self.wf(),
    {
        if !self.config.is_well_formed() || !self.scheduled_shutdowns.is_ordered_within(self.clock) {
            return false;
        }
        let ghost ledger = self@.ledger;
        let mut at: usize = 0;
        while at < self.bookings.len()
            invariant
                at <= self.bookings.len(),
                ledger == self@.ledger,
                forall|first: int, second: int|
                    0 <= first < second < at ==> names(ledger)[first] != names(ledger)[second],
                forall|seen: int|
                    0 <= seen < at ==> {
                        &&& (#[trigger] ledger[seen]).1.wf()
                        &&& ledger[seen].1.settled_by() <= self.clock
                    },
            decreases self.bookings.len() - at,
        {
            let machine = self.bookings[at].0.as_str();
            let booking = &self.bookings[at].1;
            assert(ledger[at as int] == (machine@, booking@));
            assert(names(ledger)[at as int] == machine@);
            proof {
                names(ledger).index_of_first_ensures(machine@);
            }
            match find(&self.bookings, machine) {
                Some(first) => {
                    if first != at {
                        assert(names(ledger)[first as int] == names(ledger)[at as int]);
                        return false;
                    }
                },
                None => {
                    assert(names(ledger).contains(machine@));
                },
            }
            if !booking.is_well_formed() {
                return false;
            }
            let settled = match booking.currently_running_since {
                Some(since) => since,
                None => booking.creation_instant + booking.runtime_accumulator,
            };
            if settled > self.clock {
                return false;
            }
            at = at + 1;
        }
        let ghost queue = self@.queue;
        let mut entry: usize = 0;
        while entry < self.scheduled_shutdowns.entries.len()
            invariant
                entry <= self.scheduled_shutdowns.entries.len(),
                queue == self@.queue,
                forall|seen: int| 0 <= seen < entry ==> self.config.profile((#[trigger] queue[seen]).1) is Some,
            decreases self.scheduled_shutdowns.entries.len() - entry,
        {
            let slave = self.scheduled_shutdowns.entries[entry].1.as_str();
            assert(queue[entry as int].1 == slave@);
            if self.config.slave(slave).is_none() {
                return false;
            }
            entry = entry + 1;
        }
        true
    }

    /// Whether `now` can follow the clock of the state.
    pub fn accepts(&self, now: u64) -> (accepted: bool)
        ensures
            accepted == self@.accepts(now),
    {
        self.clock <= now && now <= LATEST_INSTANT
    }
}

} // verus!
