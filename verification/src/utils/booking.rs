//! The record of one reservation and of the time its machine has run.

use vstd::prelude::*;

verus! {

/// One user's reservation of one machine.
///
/// Instants are nanoseconds on a monotonic clock whose origin the embedding
/// program chooses; durations are nanoseconds.
#[derive(Debug, Clone, PartialEq, Eq)]
pub struct Booking {
    pub user: String,
    /// Wall-clock time of the reservation, in nanoseconds since the Unix
    /// epoch. Kept for the logs only.
    pub creation_datetime: i64,
    /// Instant of the reservation.
    pub creation_instant: u64,
    /// Start of the run that is under way, if the machine is running.
    pub currently_running_since: Option<u64>,
    /// Sum of the runs that have ended.
    pub runtime_accumulator: u64,
}

/// A [`Booking`] with its user as a character sequence.
pub struct BookingView {
    pub user: Seq<char>,
    pub creation_datetime: i64,
    pub creation_instant: u64,
    pub currently_running_since: Option<u64>,
    pub runtime_accumulator: u64,
}

impl View for Booking {
    type V = BookingView;

    open spec fn view(&self) -> BookingView {
        BookingView {
            user: self.user@,
            creation_datetime: self.creation_datetime,
            creation_instant: self.creation_instant,
            currently_running_since: self.currently_running_since,
            runtime_accumulator: self.runtime_accumulator,
        }
    }
}

impl DeepView for Booking {
    type V = BookingView;

    open spec fn deep_view(&self) -> BookingView {
        self@
    }
}

impl BookingView {
    /// A booking made at `now` that has not run yet.
    pub open spec fn fresh(user: Seq<char>, now: u64, datetime: i64) -> BookingView {
        BookingView {
            user,
            creation_datetime: datetime,
            creation_instant: now,
            currently_running_since: None,
            runtime_accumulator: 0,
        }
    }

    /// Whether the machine is reported as drawing power.
    pub open spec fn is_running(self) -> bool {
        self.currently_running_since is Some
    }

    /// The earliest instant that can follow what the booking has seen: the
    /// start of the run under way, or else the reservation plus the time
    /// run since.
    pub open spec fn settled_by(self) -> int {
        match self.currently_running_since {
            Some(since) => since as int,
            None => self.creation_instant + self.runtime_accumulator,
        }
    }

    /// The runs counted so far fit between the reservation and the start
    /// of the run under way.
    pub open spec fn wf(self) -> bool {
        &&& self.creation_instant + self.runtime_accumulator <= u64::MAX
        &&& self.creation_instant + self.runtime_accumulator <= self.settled_by()
    }

    /// The run under way, as far as it has come at `now`.
    pub open spec fn open_run(self, now: u64) -> int {
        match self.currently_running_since {
            Some(since) => if since <= now {
                now - since
            } else {
                0
            },
            None => 0,
        }
    }

    /// Time the machine has run up to `now`: the runs that ended and the run
    /// under way.
    pub open spec fn total_runtime(self, now: u64) -> int {
        self.runtime_accumulator + self.open_run(now)
    }

    /// The booking after the machine reported the power state `power` at
    /// `now`. A report of the state that the booking is in changes nothing.
    pub open spec fn after_report(self, power: bool, now: u64) -> BookingView {
        if self.is_running() == power {
            self
        } else if power {
            BookingView { currently_running_since: Some(now), ..self }
        } else {
            BookingView {
                currently_running_since: None,
                runtime_accumulator: self.total_runtime(now) as u64,
                ..self
            }
        }
    }
}

impl Booking {
    /// A reservation by `user`, made at `now`, of a machine that is not
    /// running.
    pub fn new(user: String, now: u64, datetime: i64) -> (booking: Booking)
        ensures
            booking@ == BookingView::fresh(user@, now, datetime),
            booking@.wf(),
            !booking@.is_running(),
    {
        Booking {
            user,
            creation_datetime: datetime,
            creation_instant: now,
            currently_running_since: None,
            runtime_accumulator: 0,
        }
    }

    /// Checks that the booking is well-formed: what it has run fits between
    /// the reservation and the start of the run under way.
    pub fn is_well_formed(&self) -> (well_formed: bool)
        ensures
            well_formed == self@.wf(),
    {
        if self.runtime_accumulator > u64::MAX - self.creation_instant {
            return false;
        }
        match self.currently_running_since {
            Some(since) => self.creation_instant + self.runtime_accumulator <= since,
            None => true,
        }
    }

    /// Records that the machine reported the power state `power` at `now`.
    /// Returns whether that changed the state of the booking: a machine
    /// that runs cannot start, one that stands cannot stop.
    pub fn track(&mut self, power: bool, now: u64) -> (changed: bool)
        requires
            old(self)@.wf(),
            old(self)@.settled_by() <= now,
        ensures
            changed == (old(self)@.is_running() != power),
            final(self)@ == old(self)@.after_report(power, now),
            final(self)@.is_running() == power,
            final(self)@.wf(),
            final(self)@.settled_by() <= now,
            final(self)@.total_runtime(now) == old(self)@.total_runtime(now),
    {
        if self.is_running() == power {
            return false;
        }
        if power {
            self.currently_running_since = Some(now);
        } else {
            let total = self.total_runtime(now);
            self.currently_running_since = None;
            self.runtime_accumulator = total;
        }
        true
    }

    /// Whether the machine is reported as drawing power: exactly when the
    /// start of a run is on record.
    pub fn is_running(&self) -> (running: bool)
        ensures
            running == self@.is_running(),
            running == self.currently_running_since.is_some(),
    {
        self.currently_running_since.is_some()
    }

    /// Time the machine has run up to `now`.
    pub fn total_runtime(&self, now: u64) -> (total: u64)
        requires
            self@.wf(),
        ensures
            total == self@.total_runtime(now),
    {
        match self.currently_running_since {
            Some(since) => if since <= now {
                self.runtime_accumulator + (now - since)
            } else {
                self.runtime_accumulator
            },
            None => self.runtime_accumulator,
        }
    }
}

/// While a machine runs, its total runtime never decreases as time goes
/// on.
pub proof fn lemma_runtime_grows_with_time(booking: BookingView, earlier: u64, later: u64)
    requires
        earlier <= later,
    ensures
        booking.total_runtime(earlier) <= booking.total_runtime(later),
{
}

/// A stop at `stop` followed by a start at `start` loses no runtime: at any
/// later instant the total is at least what it was at the stop.
pub proof fn lemma_runtime_survives_toggle(
    booking: BookingView,
    stop: u64,
    start: u64,
    later: u64,
)
    requires
        booking.wf(),
        booking.is_running(),
        booking.settled_by() <= stop <= start <= later,
    ensures
        booking.after_report(false, stop).after_report(true, start).wf(),
        booking.after_report(false, stop).after_report(true, start).total_runtime(later)
            >= booking.total_runtime(stop),
        booking.after_report(false, stop).total_runtime(later) == booking.total_runtime(stop),
{
}

/// A start at `start` followed by a stop at `stop` adds exactly the time
/// between the two.
pub proof fn lemma_run_adds_interval(booking: BookingView, start: u64, stop: u64)
    requires
        booking.wf(),
        !booking.is_running(),
        booking.settled_by() <= start <= stop,
    ensures
        booking.after_report(true, start).after_report(false, stop).runtime_accumulator
            == booking.runtime_accumulator + (stop - start),
        booking.after_report(true, start).after_report(false, stop).wf(),
{
}

} // verus!
