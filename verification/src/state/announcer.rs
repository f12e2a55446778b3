//! The periodic worker: what is due at each tick of the timer.

use vstd::prelude::*;
use vstd::string::StringExecFns;
use crate::config::SpacerConfig;
use crate::state::schedule::{due_count, slaves_in};
use crate::state::{command, set_power_state, Ledger, Publish, PublishView, State, StateView};
use crate::utils::booking::BookingView;
use crate::utils::{create_display_time_string, hours_and_minutes, minute_mark, minutes_begun, whole_seconds};

verus! {

/// The two messages that make a display show a runtime: a title, and the
/// runtime as hours and minutes.
pub open spec fn display_messages(machine_id: Seq<char>, runtime: u64) -> Seq<PublishView> {
    seq![
        PublishView {
            topic: "fabreader/"@ + machine_id + "/display/title"@,
            payload: "Dauer"@,
        },
        PublishView {
            topic: "fabreader/"@ + machine_id + "/display/info"@,
            payload: hours_and_minutes(minutes_begun(runtime)),
        },
    ]
}

/// Whether the display of a booking is due at `now`: the machine runs, and
/// its runtime has just passed a full minute.
pub open spec fn display_due(booking: BookingView, now: u64) -> bool {
    booking.is_running() && whole_seconds(booking.total_runtime(now) as u64) % 60 == 0
}

/// The messages for the display of one booked machine at `now`: none
/// unless the display is due and the machine has a display.
pub open spec fn display_update(config: &SpacerConfig, entry: (Seq<char>, BookingView), now: u64) -> Seq<
    PublishView,
> {
    if display_due(entry.1, now) {
        match config.display_of(entry.0) {
            Some(machine_id) => display_messages(machine_id, entry.1.total_runtime(now) as u64),
            None => Seq::empty(),
        }
    } else {
        Seq::empty()
    }
}

/// The messages for the displays of all booked machines at `now`, in
/// ledger order.
pub open spec fn display_updates(config: &SpacerConfig, ledger: Ledger, now: u64) -> Seq<PublishView>
    decreases ledger.len(),
{
    if ledger.len() == 0 {
        Seq::empty()
    } else {
        display_updates(config, ledger.drop_last(), now) + display_update(config, ledger.last(), now)
    }
}

/// The commands that switch off `slaves`: for each slave, in order, the
/// off command of its profile.
pub open spec fn shutdown_commands(config: &SpacerConfig, slaves: Seq<Seq<char>>) -> Seq<PublishView> {
    Seq::new(slaves.len(), |at: int| command(config.profile(slaves[at]).unwrap(), false))
}

/// Builds the two messages that make the display `machine_id` show
/// `runtime`.
pub fn update_runtime_display(machine_id: &str, runtime: u64) -> (messages: Vec<Publish>)
    ensures
        messages.deep_view() == display_messages(machine_id@, runtime),
{
    let mut title_topic = "fabreader/".to_owned();
    title_topic.append(machine_id);
    title_topic.append("/display/title");
    let mut info_topic = "fabreader/".to_owned();
    info_topic.append(machine_id);
    info_topic.append("/display/info");
    let mut messages: Vec<Publish> = Vec::new();
    messages.push(Publish { topic: title_topic, payload: "Dauer".to_owned() });
    messages.push(Publish { topic: info_topic, payload: create_display_time_string(runtime) });
    assert(messages.deep_view() =~= display_messages(machine_id@, runtime));
    messages
}

/// Builds the commands that switch off `slaves`, one for each, in order.
pub fn switch_off(config: &SpacerConfig, slaves: &Vec<String>) -> (commands: Vec<Publish>)
    requires
        forall|at: int| 0 <= at < slaves.len() ==> config.profile(#[trigger] slaves.deep_view()[at]) is Some,
    ensures
        commands.deep_view() == shutdown_commands(config, slaves.deep_view()),
        commands.len() == slaves.len(),
{
    let ghost names = slaves.deep_view();
    let mut commands: Vec<Publish> = Vec::new();
    let mut at: usize = 0;
    while at < slaves.len()
        invariant
            at <= slaves.len(),
            names == slaves.deep_view(),
            forall|known: int| 0 <= known < names.len() ==> config.profile(#[trigger] names[known]) is Some,
            commands.len() == at,
            forall|sent: int|
                0 <= sent < at ==> (#[trigger] commands.deep_view()[sent]) == command(
                    config.profile(names[sent]).unwrap(),
                    false,
                ),
        decreases slaves.len() - at,
    {
        let ghost sent = commands.deep_view();
        assert(names[at as int] == slaves[at as int]@);
        assert(config.profile(names[at as int]) is Some);
        match config.slave(slaves[at].as_str()) {
            Some(profile) => {
                commands.push(set_power_state(profile, false));
                assert(commands.deep_view() =~= sent.push(command(profile@, false)));
            },
            None => {},
        }
        at = at + 1;
    }
    assert(commands.deep_view() =~= shutdown_commands(config, names));
    commands
}

impl State {
    /// The messages for the displays at `now`: for each machine that runs
    /// and whose runtime has passed a full minute within the last second,
    /// two messages to the display attached to it. A machine without a
    /// display gets none.
    pub fn update_all_runtime_displays(&self, now: u64) -> (messages: Vec<Publish>)
        requires
            self.wf(),
        ensures
            messages.deep_view() == display_updates(&self.config, self@.ledger, now),
    {
        let ghost ledger = self@.ledger;
        let mut messages: Vec<Publish> = Vec::new();
        let mut at: usize = 0;
        proof {
            assert(ledger.take(0) =~= Seq::<(Seq<char>, BookingView)>::empty());
            assert(messages.deep_view() =~= Seq::<PublishView>::empty());
        }
        while at < self.bookings.len()
            invariant
                at <= self.bookings.len(),
                self.wf(),
                ledger == self@.ledger,
                messages.deep_view() == display_updates(&self.config, ledger.take(at as int), now),
            decreases self.bookings.len() - at,
        {
            let machine = self.bookings[at].0.as_str();
            let booking = &self.bookings[at].1;
            let ghost sent = messages.deep_view();
            proof {
                assert(ledger.take(at as int + 1).drop_last() =~= ledger.take(at as int));
                assert(ledger.take(at as int + 1).last() == (machine@, booking@));
                assert(ledger[at as int].1.wf());
            }
            if booking.is_running() {
                let runtime = booking.total_runtime(now);
                if minute_mark(runtime) {
                    match self.config.machine_id(machine) {
                        Some(machine_id) => {
                            let mut update = update_runtime_display(machine_id.as_str(), runtime);
                            let ghost added = update.deep_view();
                            messages.append(&mut update);
                            assert(messages.deep_view() =~= sent + added);
                        },
                        None => {},
                    }
                }
            }
            assert(messages.deep_view() =~= sent + display_update(
                &self.config,
                (machine@, booking@),
                now,
            ));
            at = at + 1;
        }
        proof {
            assert(ledger.take(at as int) =~= ledger);
        }
        messages
    }

    /// Carries out the shutdowns that are due at `now`: takes them off the
    /// head of the queue, oldest first, and returns for each of them, in
    /// that order, the command that switches its slave off. What stays in
    /// the queue is due later than `now`; the ledger and the clock stay as
    /// they are.
    pub fn perform_scheduled_shutdowns(&mut self, now: u64) -> (commands: Vec<Publish>)
        requires
            old(self).wf(),
        ensures
            final(self).wf(),
            final(self).config == old(self).config,
            final(self)@ == (StateView {
                queue: old(self)@.queue.skip(due_count(old(self)@.queue, now) as int),
                ..old(self)@
            }),
            commands.len() == due_count(old(self)@.queue, now) <= old(self)@.queue.len(),
            forall|at: int|
                0 <= at < commands.len() ==> {
                    &&& (#[trigger] old(self)@.queue[at]).0 <= now
                    &&& old(self).config.profile(old(self)@.queue[at].1) matches Some(profile)
                    &&& commands[at]@ == command(profile, false)
                },
            forall|at: int| 0 <= at < final(self)@.queue.len() ==> (#[trigger] final(self)@.queue[at]).0 > now,
    {
        let ghost before = old(self)@.queue;
        let due = self.scheduled_shutdowns.pop_due(now);
        proof {
            let after = self@.queue;
            assert forall|at: int| 0 <= at < after.len() implies #[trigger] after[at] == before[at
                + due.len()] by {}
            assert forall|at: int| 0 <= at < due.len() implies self.config.profile(
                #[trigger] due.deep_view()[at],
            ) is Some by {
                assert(due.deep_view()[at] == slaves_in(before.take(due.len() as int))[at]);
                assert(before.take(due.len() as int)[at] == before[at]);
            }
        }
        let commands = switch_off(&self.config, &due);
        proof {
            assert forall|at: int| 0 <= at < commands.len() implies {
                &&& (#[trigger] before[at]).0 <= now
                &&& self.config.profile(before[at].1) matches Some(profile)
                &&& commands[at]@ == command(profile, false)
            } by {
                assert(due.deep_view()[at] == slaves_in(before.take(due.len() as int))[at]);
                assert(before.take(due.len() as int)[at] == before[at]);
                assert(commands.deep_view()[at] == commands[at]@);
            }
        }
        commands
    }
}

} // verus!
