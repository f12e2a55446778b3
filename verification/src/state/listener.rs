//! The event dispatcher: reactions to the messages of the bus.

use vstd::prelude::*;
use vstd::utf8::{decode_utf8, valid_utf8};
use crate::config::SpacerConfig;
use crate::state::schedule::{
    cancelled, in_order, lemma_cancel_keeps_order, lemma_schedule_keeps_order, scheduled,
    within_delay, Pending,
};
use crate::state::{
    command, known, lemma_time_passes, set_power_state, Ledger, Publish, PublishView, State,
    StateView,
};
use crate::utils::booking::{Booking, BookingView};
use crate::utils::fault::Fault;
use crate::utils::table::{find, names, position};
use crate::utils::text::{same_text, split, split_on, text_of};
use crate::utils::{get_power_state, reported_state};

verus! {

/// Whether the booking `entry` keeps `slave` powered against a decision
/// taken for `master`: it is the booking of another master that the slave
/// serves, and that master runs or the slave is of the continuous kind.
pub open spec fn protects(
    config: &SpacerConfig,
    entry: (Seq<char>, BookingView),
    master: Seq<char>,
    slave: Seq<char>,
) -> bool {
    &&& entry.0 != master
    &&& config.serves(entry.0, slave)
    &&& (entry.1.is_running() || config.runs_continuously(slave))
}

/// Whether some booking keeps `slave` powered against a decision taken for
/// `master`.
pub open spec fn protected(
    config: &SpacerConfig,
    ledger: Ledger,
    master: Seq<char>,
    slave: Seq<char>,
) -> bool {
    exists|at: int| 0 <= at < ledger.len() && protects(config, #[trigger] ledger[at], master, slave)
}

/// Whether a decision taken for `master` reaches `slave`: the slave has a
/// profile, no booking protects it, and its kind is one that the decision
/// is allowed to touch.
pub open spec fn acts_on(
    config: &SpacerConfig,
    ledger: Ledger,
    master: Seq<char>,
    slave: Seq<char>,
    short_slaves: bool,
    long_slaves: bool,
) -> bool {
    match config.profile(slave) {
        Some(profile) => {
            &&& !protected(config, ledger, master, slave)
            &&& if profile.runs_continuously {
                long_slaves
            } else {
                short_slaves
            }
        },
        None => false,
    }
}

/// The queue and the commands after a decision for `master` has gone
/// through `slaves` in order. A slave that needs trailing time is queued
/// for shutdown instead of switched off, and loses its pending shutdown
/// when it is switched on; any other slave is switched at once.
pub open spec fn arbitrated(
    config: &SpacerConfig,
    ledger: Ledger,
    master: Seq<char>,
    slaves: Seq<Seq<char>>,
    short_slaves: bool,
    long_slaves: bool,
    power: bool,
    now: u64,
    queue: Seq<Pending>,
) -> (Seq<Pending>, Seq<PublishView>)
    decreases slaves.len(),
{
    if slaves.len() == 0 {
        (queue, Seq::empty())
    } else {
        let (queue, commands) = arbitrated(
            config,
            ledger,
            master,
            slaves.drop_last(),
            short_slaves,
            long_slaves,
            power,
            now,
            queue,
        );
        let slave = slaves.last();
        if !acts_on(config, ledger, master, slave, short_slaves, long_slaves) {
            (queue, commands)
        } else {
            let profile = config.profile(slave).unwrap();
            if !profile.needs_trailing_time {
                (queue, commands.push(command(profile, power)))
            } else if power {
                (cancelled(queue, slave), commands.push(command(profile, power)))
            } else {
                (scheduled(queue, slave, now), commands)
            }
        }
    }
}

/// A continuous slave is protected by the mere booking of another master
/// that it serves, whether that master runs or not: no decision taken for
/// `master` reaches it.
pub proof fn lemma_booking_protects_continuous_slave(
    config: &SpacerConfig,
    ledger: Ledger,
    master: Seq<char>,
    other: Seq<char>,
    slave: Seq<char>,
    short_slaves: bool,
    long_slaves: bool,
)
    requires
        other != master,
        names(ledger).contains(other),
        config.serves(other, slave),
        config.runs_continuously(slave),
    ensures
        protected(config, ledger, master, slave),
        !acts_on(config, ledger, master, slave, short_slaves, long_slaves),
{
    let at = choose|at: int| 0 <= at < names(ledger).len() && names(ledger)[at] == other;
    assert(protects(config, ledger[at], master, slave));
}

/// A slave of the short kind is protected only by a master that runs:
/// where every other booked master that it serves stands idle, it is not
/// protected.
pub proof fn lemma_idle_bookings_do_not_protect_short_slave(
    config: &SpacerConfig,
    ledger: Ledger,
    master: Seq<char>,
    slave: Seq<char>,
)
    requires
        !config.runs_continuously(slave),
        forall|at: int|
            0 <= at < ledger.len() && (#[trigger] ledger[at]).0 != master && config.serves(
                ledger[at].0,
                slave,
            ) ==> !ledger[at].1.is_running(),
    ensures
        !protected(config, ledger, master, slave),
{
}

/// A running master protects every slave that it serves against the
/// decisions taken for any other master.
pub proof fn lemma_running_master_protects(
    config: &SpacerConfig,
    ledger: Ledger,
    master: Seq<char>,
    at: int,
    slave: Seq<char>,
)
    requires
        0 <= at < ledger.len(),
        ledger[at].0 != master,
        ledger[at].1.is_running(),
        config.serves(ledger[at].0, slave),
    ensures
        protected(config, ledger, master, slave),
{
    assert(protects(config, ledger[at], master, slave));
}

/// A slave that a decision does not reach is left alone: with it or
/// without it among the slaves, the queue and the commands are the same.
pub proof fn lemma_unreached_slave_is_left_alone(
    config: &SpacerConfig,
    ledger: Ledger,
    master: Seq<char>,
    slaves: Seq<Seq<char>>,
    slave: Seq<char>,
    short_slaves: bool,
    long_slaves: bool,
    power: bool,
    now: u64,
    queue: Seq<Pending>,
)
    requires
        !acts_on(config, ledger, master, slave, short_slaves, long_slaves),
    ensures
        arbitrated(
            config,
            ledger,
            master,
            slaves.push(slave),
            short_slaves,
            long_slaves,
            power,
            now,
            queue,
        ) == arbitrated(config, ledger, master, slaves, short_slaves, long_slaves, power, now, queue),
{
    assert(slaves.push(slave).drop_last() =~= slaves);
}

/// After a report that was accepted the booking of the machine is in the
/// reported state: running after `ON`, idle after `OFF`. After one that
/// was a fault the ledger is as it was.
pub proof fn lemma_report_sets_running(
    config: &SpacerConfig,
    state: StateView,
    machine: Seq<char>,
    power: bool,
    now: u64,
)
    requires
        state.wf(),
    ensures
        ({
            let (after, reaction) = reported(config, state, machine, power, now);
            match names(state.ledger).index_of_first(machine) {
                Some(at) => {
                    &&& names(after.ledger) == names(state.ledger)
                    &&& after.ledger[at].1.is_running() == power
                    &&& after.ledger[at].1.currently_running_since is Some == power
                    &&& state.ledger[at].1.is_running() == power ==> after.ledger == state.ledger
                        && reaction.result is Err
                },
                None => after.ledger == state.ledger && reaction.result is Err,
            }
        }),
{
    names(state.ledger).index_of_first_ensures(machine);
    match names(state.ledger).index_of_first(machine) {
        Some(at) => {
            let booking = state.ledger[at].1;
            if booking.is_running() != power {
                let recorded = state.ledger.update(at, (machine, booking.after_report(power, now)));
                assert(names(recorded) =~= names(state.ledger));
            }
        },
        None => {},
    }
}

/// The state and the commands after a decision for `master`. A master
/// that the topology does not know is a fault, and nothing changes but the
/// clock.
pub open spec fn arbitration(
    config: &SpacerConfig,
    state: StateView,
    master: Seq<char>,
    short_slaves: bool,
    long_slaves: bool,
    power: bool,
    now: u64,
) -> (StateView, Result<Seq<PublishView>, Fault>) {
    match config.slaves_of(master) {
        Some(slaves) => {
            let (queue, commands) = arbitrated(
                config,
                state.ledger,
                master,
                slaves,
                short_slaves,
                long_slaves,
                power,
                now,
                state.queue,
            );
            (StateView { queue, ..state.at(now) }, Ok(commands))
        },
        None => (state.at(now), Err(Fault::UnknownMaster)),
    }
}

/// The commands of a result as sequences of characters.
pub open spec fn sent(result: Result<Vec<Publish>, Fault>) -> Result<Seq<PublishView>, Fault> {
    match result {
        Ok(commands) => Ok(commands.deep_view()),
        Err(fault) => Err(fault),
    }
}

/// What the embedding program is to do about one message.
#[derive(Debug, PartialEq, Eq)]
pub struct Reaction {
    /// What is to be reported of the message.
    pub result: Result<(), Fault>,
    /// The machine that a release has set free and its booking, closed at
    /// the instant of the release, for the usage log.
    pub released: Option<(String, Booking)>,
    /// The commands to publish, in this order.
    pub commands: Vec<Publish>,
}

/// A [`Reaction`] with its strings as character sequences.
pub struct ReactionView {
    pub result: Result<(), Fault>,
    pub released: Option<(Seq<char>, BookingView)>,
    pub commands: Seq<PublishView>,
}

impl View for Reaction {
    type V = ReactionView;

    open spec fn view(&self) -> ReactionView {
        ReactionView {
            result: self.result,
            released: self.released.deep_view(),
            commands: self.commands.deep_view(),
        }
    }
}

impl ReactionView {
    /// Nothing to do and nothing to report.
    pub open spec fn nothing() -> ReactionView {
        ReactionView { result: Ok(()), released: None, commands: Seq::empty() }
    }

    /// Nothing to do but to report `fault`.
    pub open spec fn failed(fault: Fault) -> ReactionView {
        ReactionView { result: Err(fault), released: None, commands: Seq::empty() }
    }

    /// The reaction to a transition that was followed by a decision with
    /// the given outcome.
    pub open spec fn decided(
        released: Option<(Seq<char>, BookingView)>,
        outcome: Result<Seq<PublishView>, Fault>,
    ) -> ReactionView {
        match outcome {
            Ok(commands) => ReactionView { result: Ok(()), released, commands },
            Err(fault) => ReactionView { result: Err(fault), released, commands: Seq::empty() },
        }
    }
}

impl Reaction {
    /// Nothing to do and nothing to report.
    pub fn nothing() -> (reaction: Reaction)
        ensures
            reaction@ == ReactionView::nothing(),
    {
        let reaction = Reaction { result: Ok(()), released: None, commands: Vec::new() };
        assert(reaction@.commands =~= Seq::empty());
        reaction
    }

    /// Nothing to do but to report `fault`.
    pub fn failed(fault: Fault) -> (reaction: Reaction)
        ensures
            reaction@ == ReactionView::failed(fault),
    {
        let reaction = Reaction { result: Err(fault), released: None, commands: Vec::new() };
        assert(reaction@.commands =~= Seq::empty());
        reaction
    }

    /// The reaction to a transition that was followed by a decision with
    /// the given outcome.
    pub fn decided(released: Option<(String, Booking)>, outcome: Result<Vec<Publish>, Fault>) -> (reaction:
        Reaction)
        ensures
            reaction@ == ReactionView::decided(released.deep_view(), sent(outcome)),
    {
        match outcome {
            Ok(commands) => Reaction { result: Ok(()), released, commands },
            Err(fault) => {
                let reaction = Reaction { result: Err(fault), released, commands: Vec::new() };
                assert(reaction@.commands =~= Seq::empty());
                reaction
            },
        }
    }
}

/// The topic on which bookings and releases are announced.
pub const BOOKING_TOPIC: &'static str = "fabaccess/log";

/// The power state that a telemetry value stands for.
pub open spec fn power_of(state: Seq<char>) -> Result<bool, Fault> {
    if state == "ON"@ {
        Ok(true)
    } else if state == "OFF"@ {
        Ok(false)
    } else {
        Err(Fault::UnknownPowerState)
    }
}

/// The power state that a telemetry payload reports.
pub open spec fn reading(payload: Seq<char>) -> Result<bool, Fault> {
    match reported_state(payload) {
        Ok(state) => power_of(state),
        Err(fault) => Err(fault),
    }
}

/// The state and the reaction after `machine` was booked by `user`. A
/// machine that is booked already stays as it is. A new booking switches
/// on the continuous slaves of the machine.
pub open spec fn booked(
    config: &SpacerConfig,
    state: StateView,
    machine: Seq<char>,
    user: Seq<char>,
    now: u64,
    datetime: i64,
) -> (StateView, ReactionView) {
    if names(state.ledger).contains(machine) {
        (state.at(now), ReactionView::failed(Fault::DoubleBooking))
    } else {
        let reserved = StateView {
            ledger: state.ledger.push((machine, BookingView::fresh(user, now, datetime))),
            ..state.at(now)
        };
        let (after, outcome) = arbitration(config, reserved, machine, false, true, true, now);
        (after, ReactionView::decided(None, outcome))
    }
}

/// The state and the reaction after `machine` was released. The booking
/// leaves the ledger, closed at `now`; the slaves of the machine are
/// switched off, those of the short kind only if the machine was still
/// running.
pub open spec fn released(config: &SpacerConfig, state: StateView, machine: Seq<char>, now: u64) -> (
    StateView,
    ReactionView,
) {
    match names(state.ledger).index_of_first(machine) {
        Some(at) => {
            let booking = state.ledger[at].1;
            let vacated = StateView { ledger: state.ledger.remove(at), ..state.at(now) };
            let (after, outcome) = arbitration(
                config,
                vacated,
                machine,
                booking.is_running(),
                true,
                false,
                now,
            );
            (after, ReactionView::decided(Some((machine, booking.after_report(false, now))), outcome))
        },
        None => (state.at(now), ReactionView::failed(Fault::ReleaseOfUnbooked)),
    }
}

/// The state and the reaction after `machine` reported the power state
/// `power`. A report from a machine that is not booked, or of the state
/// that the booking is in already, is a fault and changes nothing. Any
/// other report is recorded in the booking and switches the short slaves of
/// the machine.
pub open spec fn reported(
    config: &SpacerConfig,
    state: StateView,
    machine: Seq<char>,
    power: bool,
    now: u64,
) -> (StateView, ReactionView) {
    match names(state.ledger).index_of_first(machine) {
        Some(at) => {
            let booking = state.ledger[at].1;
            if booking.is_running() == power {
                (
                    state.at(now),
                    ReactionView::failed(
                        if power {
                            Fault::AlreadyRunning
                        } else {
                            Fault::NotRunning
                        },
                    ),
                )
            } else {
                let recorded = StateView {
                    ledger: state.ledger.update(at, (machine, booking.after_report(power, now))),
                    ..state.at(now)
                };
                let (after, outcome) = arbitration(config, recorded, machine, true, false, power, now);
                (after, ReactionView::decided(None, outcome))
            }
        },
        None => (state.at(now), ReactionView::failed(Fault::UnbookedActivity(power))),
    }
}

/// The state and the reaction after telemetry of `machine` with a given
/// reading. A payload that tells no power state is a fault and changes
/// nothing.
pub open spec fn telemetry(
    config: &SpacerConfig,
    state: StateView,
    machine: Seq<char>,
    reading: Result<bool, Fault>,
    now: u64,
) -> (StateView, ReactionView) {
    match reading {
        Ok(power) => reported(config, state, machine, power, now),
        Err(fault) => (state.at(now), ReactionView::failed(fault)),
    }
}

/// The state and the reaction after a message on the booking topic: three
/// fields between semicolons, the machine, the user and what happened.
/// Anything but a booking or a release is passed over.
pub open spec fn booking_changed(
    config: &SpacerConfig,
    state: StateView,
    payload: Seq<char>,
    now: u64,
    datetime: i64,
) -> (StateView, ReactionView) {
    let fields = split_on(payload, ';');
    if fields.len() != 3 {
        (state.at(now), ReactionView::failed(Fault::UnexpectedDataCount))
    } else if fields[2] == "booked"@ {
        booked(config, state, fields[0], fields[1], now, datetime)
    } else if fields[2] == "released"@ {
        released(config, state, fields[0], now)
    } else {
        (state.at(now), ReactionView::nothing())
    }
}

/// Whether a topic is that of the telemetry of some machine: three levels,
/// the first `tele`, the last `MARGINS`.
pub open spec fn is_telemetry(topic: Seq<char>) -> bool {
    let levels = split_on(topic, '/');
    levels.len() == 3 && levels[0] == "tele"@ && levels[2] == "MARGINS"@
}

/// The state and the reaction after a message, given what its payload
/// reads as telemetry.
pub open spec fn handled(
    config: &SpacerConfig,
    state: StateView,
    topic: Seq<char>,
    payload: Seq<char>,
    reading: Result<bool, Fault>,
    now: u64,
    datetime: i64,
) -> (StateView, ReactionView) {
    if is_telemetry(topic) {
        telemetry(config, state, split_on(topic, '/')[1], reading, now)
    } else if topic == BOOKING_TOPIC@ {
        booking_changed(config, state, payload, now, datetime)
    } else {
        (state.at(now), ReactionView::failed(Fault::UnknownTopic))
    }
}

/// Whether some booking keeps `slave` powered against a decision taken for
/// `master`.
pub fn is_protected(
    config: &SpacerConfig,
    bookings: &Vec<(String, Booking)>,
    master: &str,
    slave: &str,
) -> (kept: bool)
    ensures
        kept == protected(config, bookings.deep_view(), master@, slave@),
{
    let continuous = match config.slave(slave) {
        Some(profile) => profile.runs_continuously,
        None => false,
    };
    let ghost ledger = bookings.deep_view();
    let mut at: usize = 0;
    while at < bookings.len()
        invariant
            at <= bookings.len(),
            ledger == bookings.deep_view(),
            continuous == config.runs_continuously(slave@),
            forall|before: int|
                0 <= before < at ==> !protects(config, #[trigger] ledger[before], master@, slave@),
        decreases bookings.len() - at,
    {
        let other = bookings[at].0.as_str();
        let booking = &bookings[at].1;
        assert(ledger[at as int] == (other@, booking@));
        if !same_text(other, master) && (booking.is_running() || continuous) {
            match config.slaves(other) {
                Some(slaves) => {
                    let found = position(slaves, slave);
                    proof {
                        slaves.deep_view().index_of_first_ensures(slave@);
                    }
                    if found.is_some() {
                        assert(protects(config, ledger[at as int], master@, slave@));
                        return true;
                    }
                },
                None => {},
            }
        }
        at = at + 1;
    }
    false
}

impl State {
    /// Brings the slaves of `master` in line with a change of that master.
    ///
    /// Each slave of the master that no other booking protects, and whose
    /// kind the caller lets through (`long_slaves` for the continuous
    /// kind, `short_slaves` for the others), is brought to `power`: at
    /// once by a command that is returned, or, for a slave that needs
    /// trailing time, off by an entry in the queue and on by a command
    /// and the removal of its pending shutdown.
    ///
    /// Fails for a master that the topology does not know, and then does
    /// nothing but move the clock.
    pub fn update_slaves(
        &mut self,
        master: &str,
        short_slaves: bool,
        long_slaves: bool,
        power: bool,
        now: u64,
    ) -> (result: Result<Vec<Publish>, Fault>)
        requires
            old(self).wf(),
            old(self)@.accepts(now),
        ensures
            final(self).wf(),
            final(self).config == old(self).config,
            (final(self)@, sent(result)) == arbitration(
                &old(self).config,
                old(self)@,
                master@,
                short_slaves,
                long_slaves,
                power,
                now,
            ),
    {
        proof {
            lemma_time_passes(self@, now);
        }
        self.clock = now;
        let slaves = match self.config.slaves(master) {
            Some(slaves) => slaves,
            None => {
                return Err(Fault::UnknownMaster);
            },
        };
        let ghost ledger = self@.ledger;
        let ghost start = self@.queue;
        let mut commands: Vec<Publish> = Vec::new();
        let mut at: usize = 0;
        proof {
            assert(slaves.deep_view().take(0) =~= Seq::<Seq<char>>::empty());
            assert(commands.deep_view() =~= Seq::<PublishView>::empty());
        }
        while at < slaves.len()
            invariant
                at <= slaves.len(),
                now <= crate::state::schedule::LATEST_INSTANT,
                self.config == old(self).config,
                self.config.slaves_of(master@) == Some(slaves.deep_view()),
                self@.ledger == ledger,
                ledger == old(self)@.ledger,
                start == old(self)@.queue,
                self@.clock == now,
                in_order(self@.queue),
                within_delay(self@.queue, now),
                known(&self.config, self@.queue),
                (self@.queue, commands.deep_view()) == arbitrated(
                    &self.config,
                    ledger,
                    master@,
                    slaves.deep_view().take(at as int),
                    short_slaves,
                    long_slaves,
                    power,
                    now,
                    start,
                ),
            decreases slaves.len() - at,
        {
            let slave = slaves[at].as_str();
            let ghost sent = commands.deep_view();
            proof {
                assert(slaves.deep_view().take(at as int + 1).drop_last() =~= slaves.deep_view().take(
                    at as int,
                ));
                assert(slaves.deep_view().take(at as int + 1).last() == slave@);
            }
            match self.config.slave(slave) {
                Some(profile) => {
                    let allowed = if profile.runs_continuously {
                        long_slaves
                    } else {
                        short_slaves
                    };
                    if allowed && !is_protected(&self.config, &self.bookings, master, slave) {
                        if !profile.needs_trailing_time {
                            commands.push(set_power_state(profile, power));
                            assert(commands.deep_view() =~= sent.push(command(profile@, power)));
                        } else if power {
                            proof {
                                lemma_cancel_keeps_order(self@.queue, slave@, now);
                            }
                            let ghost waiting = self@.queue;
                            self.scheduled_shutdowns.cancel(slave);
                            assert forall|entry: int| 0 <= entry < self@.queue.len() implies self.config.profile(
                                (#[trigger] self@.queue[entry]).1,
                            ) is Some by {
                                let kept = self@.queue[entry];
                                assert(waiting.contains(kept));
                                let origin = choose|origin: int|
                                    0 <= origin < waiting.len() && waiting[origin] == kept;
                                assert(self.config.profile(waiting[origin].1) is Some);
                            }
                            commands.push(set_power_state(profile, power));
                            assert(commands.deep_view() =~= sent.push(command(profile@, power)));
                        } else {
                            proof {
                                lemma_schedule_keeps_order(self@.queue, slave@, now, now);
                            }
                            let ghost waiting = self@.queue;
                            self.scheduled_shutdowns.schedule(slaves[at].clone(), now);
                            assert forall|entry: int| 0 <= entry < self@.queue.len() implies self.config.profile(
                                (#[trigger] self@.queue[entry]).1,
                            ) is Some by {
                                if entry < waiting.len() {
                                    assert(self@.queue[entry] == waiting[entry]);
                                }
                            }
                        }
                    }
                },
                None => {},
            }
            at = at + 1;
        }
        proof {
            assert(slaves.deep_view().take(at as int) =~= slaves.deep_view());
        }
        Ok(commands)
    }

    /// Records that `machine` reported the power state `power`, and
    /// switches its short slaves accordingly.
    ///
    /// Fails, and changes nothing but the clock, for a machine that is not
    /// booked, for one that starts while running, and for one that stops
    /// without running.
    pub fn track_activity(&mut self, machine: &str, power: bool, now: u64) -> (reaction: Reaction)
        requires
            old(self).wf(),
            old(self)@.accepts(now),
        ensures
            final(self).wf(),
            final(self).config == old(self).config,
            (final(self)@, reaction@) == reported(&old(self).config, old(self)@, machine@, power, now),
    {
        proof {
            lemma_time_passes(self@, now);
            names(self@.ledger).index_of_first_ensures(machine@);
        }
        self.clock = now;
        let at = match find(&self.bookings, machine) {
            Some(at) => at,
            None => {
                return Reaction::failed(Fault::UnbookedActivity(power));
            },
        };
        let ghost before = self@.ledger;
        assert(before[at as int].0 == names(before)[at as int]);
        let mut entry = self.bookings.remove(at);
        let changed = entry.1.track(power, now);
        if !changed {
            proof {
                assert(before[at as int].1.after_report(power, now) == before[at as int].1);
            }
            self.bookings.insert(at, entry);
            assert(self@.ledger =~= before);
            return Reaction::failed(
                if power {
                    Fault::AlreadyRunning
                } else {
                    Fault::NotRunning
                },
            );
        }
        self.bookings.insert(at, entry);
        proof {
            let after = self@.ledger;
            assert(after =~= before.update(
                at as int,
                (machine@, before[at as int].1.after_report(power, now)),
            ));
            assert(names(after) =~= names(before));
        }
        let outcome = self.update_slaves(machine, true, false, power, now);
        Reaction::decided(None, outcome)
    }

    /// Reacts to telemetry of `machine`: reads the power state out of the
    /// payload, `ON` or `OFF`, and records it as [`State::track_activity`]
    /// does. A payload that tells neither is a fault.
    pub fn on_machine_activity(&mut self, payload: &str, machine: &str, now: u64) -> (reaction:
        Reaction)
        requires
            old(self).wf(),
            old(self)@.accepts(now),
        ensures
            final(self).wf(),
            final(self).config == old(self).config,
            (final(self)@, reaction@) == telemetry(
                &old(self).config,
                old(self)@,
                machine@,
                reading(payload@),
                now,
            ),
    {
        match read_power(payload) {
            Ok(power) => self.track_activity(machine, power, now),
            Err(fault) => {
                proof {
                    lemma_time_passes(self@, now);
                }
                self.clock = now;
                Reaction::failed(fault)
            },
        }
    }

    /// Books `machine` for `user` and switches on the continuous slaves of
    /// the machine.
    ///
    /// Fails, and changes nothing but the clock, for a machine that is
    /// booked already. For a machine that the topology does not know the
    /// booking is made and the fault reported.
    pub fn try_book(&mut self, machine: &str, user: &str, now: u64, datetime: i64) -> (reaction:
        Reaction)
        requires
            old(self).wf(),
            old(self)@.accepts(now),
        ensures
            final(self).wf(),
            final(self).config == old(self).config,
            (final(self)@, reaction@) == booked(
                &old(self).config,
                old(self)@,
                machine@,
                user@,
                now,
                datetime,
            ),
    {
        proof {
            lemma_time_passes(self@, now);
            names(self@.ledger).index_of_first_ensures(machine@);
        }
        self.clock = now;
        if find(&self.bookings, machine).is_some() {
            return Reaction::failed(Fault::DoubleBooking);
        }
        let ghost before = self@.ledger;
        let booking = Booking::new(user.to_owned(), now, datetime);
        self.bookings.push((machine.to_owned(), booking));
        proof {
            let after = self@.ledger;
            assert(after =~= before.push((machine@, BookingView::fresh(user@, now, datetime))));
            assert forall|first: int, second: int|
                0 <= first < after.len() && 0 <= second < after.len() && first != second implies names(
                after,
            )[first] != names(after)[second] by {
                if first < before.len() {
                    assert(names(after)[first] == names(before)[first]);
                }
                if second < before.len() {
                    assert(names(after)[second] == names(before)[second]);
                }
            }
        }
        let outcome = self.update_slaves(machine, false, true, true, now);
        Reaction::decided(None, outcome)
    }

    /// Releases `machine`: takes its booking out of the ledger, closes it
    /// at `now` and hands it back for the usage log, and switches off the
    /// slaves of the machine, those of the short kind only if the machine
    /// was still running.
    ///
    /// Fails, and changes nothing but the clock, for a machine that is not
    /// booked.
    pub fn try_release(&mut self, machine: &str, now: u64) -> (reaction: Reaction)
        requires
            old(self).wf(),
            old(self)@.accepts(now),
        ensures
            final(self).wf(),
            final(self).config == old(self).config,
            (final(self)@, reaction@) == released(&old(self).config, old(self)@, machine@, now),
    {
        proof {
            lemma_time_passes(self@, now);
            names(self@.ledger).index_of_first_ensures(machine@);
        }
        self.clock = now;
        let at = match find(&self.bookings, machine) {
            Some(at) => at,
            None => {
                return Reaction::failed(Fault::ReleaseOfUnbooked);
            },
        };
        let ghost before = self@.ledger;
        assert(before[at as int].0 == names(before)[at as int]);
        let mut entry = self.bookings.remove(at);
        proof {
            let after = self@.ledger;
            assert(after =~= before.remove(at as int));
            assert forall|first: int, second: int|
                0 <= first < after.len() && 0 <= second < after.len() && first != second implies names(
                after,
            )[first] != names(after)[second] by {
                let first_origin = if first < at {
                    first
                } else {
                    first + 1
                };
                let second_origin = if second < at {
                    second
                } else {
                    second + 1
                };
                assert(names(after)[first] == names(before)[first_origin]);
                assert(names(after)[second] == names(before)[second_origin]);
            }
            assert forall|kept: int| 0 <= kept < after.len() implies {
                &&& (#[trigger] after[kept]).1.wf()
                &&& after[kept].1.settled_by() <= now
            } by {
                let origin = if kept < at {
                    kept
                } else {
                    kept + 1
                };
                assert(after[kept] == before[origin]);
            }
        }
        let was_running = entry.1.track(false, now);
        let outcome = self.update_slaves(machine, was_running, true, false, now);
        Reaction::decided(Some(entry), outcome)
    }

    /// Reacts to a message on the booking topic: `machine;user;status`. The
    /// status `booked` books the machine, `released` releases it, and any
    /// other is passed over.
    ///
    /// Fails, and changes nothing but the clock, for a payload that does
    /// not have three fields.
    pub fn on_booking_change(&mut self, payload: &str, now: u64, datetime: i64) -> (reaction:
        Reaction)
        requires
            old(self).wf(),
            old(self)@.accepts(now),
        ensures
            final(self).wf(),
            final(self).config == old(self).config,
            (final(self)@, reaction@) == booking_changed(
                &old(self).config,
                old(self)@,
                payload@,
                now,
                datetime,
            ),
    {
        let fields = split(payload, ';');
        if fields.len() != 3 {
            proof {
                lemma_time_passes(self@, now);
            }
            self.clock = now;
            return Reaction::failed(Fault::UnexpectedDataCount);
        }
        let machine = fields[0].as_str();
        let user = fields[1].as_str();
        let status = fields[2].as_str();
        assert(machine@ == fields.deep_view()[0]);
        assert(user@ == fields.deep_view()[1]);
        assert(status@ == fields.deep_view()[2]);
        if same_text(status, "booked") {
            self.try_book(machine, user, now, datetime)
        } else if same_text(status, "released") {
            self.try_release(machine, now)
        } else {
            proof {
                lemma_time_passes(self@, now);
            }
            self.clock = now;
            Reaction::nothing()
        }
    }

    /// Reacts to a message by its topic: telemetry of a machine on
    /// `tele/<machine>/MARGINS`, bookings and releases on the booking
    /// topic.
    ///
    /// Fails, and changes nothing but the clock, for any other topic.
    pub fn handle_payload(&mut self, topic: &str, payload: &str, now: u64, datetime: i64) -> (reaction:
        Reaction)
        requires
            old(self).wf(),
            old(self)@.accepts(now),
        ensures
            final(self).wf(),
            final(self).config == old(self).config,
            (final(self)@, reaction@) == handled(
                &old(self).config,
                old(self)@,
                topic@,
                payload@,
                reading(payload@),
                now,
                datetime,
            ),
    {
        let levels = split(topic, '/');
        if levels.len() == 3 && same_text(levels[0].as_str(), "tele") && same_text(
            levels[2].as_str(),
            "MARGINS",
        ) {
            assert(levels[0]@ == levels.deep_view()[0]);
            assert(levels[1]@ == levels.deep_view()[1]);
            assert(levels[2]@ == levels.deep_view()[2]);
            self.on_machine_activity(payload, levels[1].as_str(), now)
        } else if same_text(topic, BOOKING_TOPIC) {
            assert(levels.len() == 3 ==> levels[0]@ == levels.deep_view()[0] && levels[2]@
                == levels.deep_view()[2]);
            self.on_booking_change(payload, now, datetime)
        } else {
            assert(levels.len() == 3 ==> levels[0]@ == levels.deep_view()[0] && levels[2]@
                == levels.deep_view()[2]);
            proof {
                lemma_time_passes(self@, now);
            }
            self.clock = now;
            Reaction::failed(Fault::UnknownTopic)
        }
    }

    /// Reacts to a message as it comes off the bus, and returns the text of
    /// its payload with the reaction. A payload that is no UTF-8 has no
    /// text: it is a fault to report, and nothing changes. Any other is
    /// handed to [`State::handle_payload`].
    pub fn on_publish(&mut self, topic: &str, payload: Vec<u8>, now: u64, datetime: i64) -> (received: (
        Option<String>,
        Reaction,
    ))
        requires
            old(self).wf(),
            old(self)@.accepts(now),
        ensures
            final(self).wf(),
            final(self).config == old(self).config,
            received.0 is Some == valid_utf8(payload@),
            match received.0 {
                Some(text) => {
                    &&& text@ == decode_utf8(payload@)
                    &&& (final(self)@, received.1@) == handled(
                        &old(self).config,
                        old(self)@,
                        topic@,
                        text@,
                        reading(text@),
                        now,
                        datetime,
                    )
                },
                None => {
                    &&& final(self)@ == old(self)@
                    &&& received.1@ == ReactionView::failed(Fault::PayloadNotText)
                },
            },
    {
        match text_of(payload) {
            Some(text) => {
                let reaction = self.handle_payload(topic, text.as_str(), now, datetime);
                (Some(text), reaction)
            },
            None => (None, Reaction::failed(Fault::PayloadNotText)),
        }
    }
}

/// Tells the power state that a telemetry value stands for: `ON` or `OFF`.
pub fn decode_power(state: &str) -> (power: Result<bool, Fault>)
    ensures
        power == power_of(state@),
{
    if same_text(state, "ON") {
        Ok(true)
    } else if same_text(state, "OFF") {
        Ok(false)
    } else {
        Err(Fault::UnknownPowerState)
    }
}

/// Reads the power state that a telemetry payload reports.
pub fn read_power(payload: &str) -> (power: Result<bool, Fault>)
    ensures
        power == reading(payload@),
{
    match get_power_state(payload) {
        Ok(state) => decode_power(state.as_str()),
        Err(fault) => Err(fault),
    }
}

} // verus!
