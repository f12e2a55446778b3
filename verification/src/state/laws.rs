//! What holds of the state whatever messages arrive.

use vstd::prelude::*;
use crate::config::SpacerConfig;
use crate::state::listener::{
    acts_on, arbitrated, arbitration, booked, handled, released, reported,
};
use crate::state::schedule::{
    cancelled, in_order, lemma_cancel_keeps_order, lemma_schedule_keeps_order, scheduled,
    within_delay, Pending, LATEST_INSTANT,
};
use crate::state::{known, lemma_time_passes, sound, Ledger, StateView};
use crate::utils::booking::BookingView;
use crate::utils::fault::Fault;
use crate::utils::table::names;
use crate::utils::text::split_on;

verus! {

/// A decision keeps the queue ordered, with every deadline within the
/// delay of the instant of the decision.
pub proof fn lemma_arbitrated_keeps_order(
    config: &SpacerConfig,
    ledger: Ledger,
    master: Seq<char>,
    slaves: Seq<Seq<char>>,
    short_slaves: bool,
    long_slaves: bool,
    power: bool,
    now: u64,
    queue: Seq<Pending>,
)
    requires
        in_order(queue),
        within_delay(queue, now),
        known(config, queue),
        now <= LATEST_INSTANT,
    ensures
        known(
            config,
            arbitrated(config, ledger, master, slaves, short_slaves, long_slaves, power, now, queue).0,
        ),
        in_order(
            arbitrated(config, ledger, master, slaves, short_slaves, long_slaves, power, now, queue).0,
        ),
        within_delay(
            arbitrated(config, ledger, master, slaves, short_slaves, long_slaves, power, now, queue).0,
            now,
        ),
    decreases slaves.len(),
{
    if slaves.len() > 0 {
        lemma_arbitrated_keeps_order(
            config,
            ledger,
            master,
            slaves.drop_last(),
            short_slaves,
            long_slaves,
            power,
            now,
            queue,
        );
        let earlier = arbitrated(
            config,
            ledger,
            master,
            slaves.drop_last(),
            short_slaves,
            long_slaves,
            power,
            now,
            queue,
        ).0;
        let slave = slaves.last();
        if acts_on(config, ledger, master, slave, short_slaves, long_slaves) {
            lemma_cancel_keeps_order(earlier, slave, now);
            lemma_schedule_keeps_order(earlier, slave, now, now);
            let called_off = cancelled(earlier, slave);
            assert forall|at: int| 0 <= at < called_off.len() implies config.profile(
                (#[trigger] called_off[at]).1,
            ) is Some by {
                assert(earlier.contains(called_off[at]));
                let origin = choose|origin: int|
                    0 <= origin < earlier.len() && earlier[origin] == called_off[at];
                assert(config.profile(earlier[origin].1) is Some);
            }
            let added = scheduled(earlier, slave, now);
            assert forall|at: int| 0 <= at < added.len() implies config.profile(
                (#[trigger] added[at]).1,
            ) is Some by {
                if at < earlier.len() {
                    assert(added[at] == earlier[at]);
                }
            }
        }
    }
}

/// A decision at an instant that the state accepts leaves a well-formed
/// state at that instant, with the ledger as it was.
pub proof fn lemma_arbitration_keeps_wf(
    config: &SpacerConfig,
    state: StateView,
    master: Seq<char>,
    short_slaves: bool,
    long_slaves: bool,
    power: bool,
    now: u64,
)
    requires
        sound(config, state),
        state.accepts(now),
    ensures
        sound(config, arbitration(config, state, master, short_slaves, long_slaves, power, now).0),
        arbitration(config, state, master, short_slaves, long_slaves, power, now).0.clock == now,
        arbitration(config, state, master, short_slaves, long_slaves, power, now).0.ledger
            == state.ledger,
{
    lemma_time_passes(state, now);
    match config.slaves_of(master) {
        Some(slaves) => {
            lemma_arbitrated_keeps_order(
                config,
                state.ledger,
                master,
                slaves,
                short_slaves,
                long_slaves,
                power,
                now,
                state.queue,
            );
        },
        None => {},
    }
}

/// A booking leaves a well-formed state. Where it was accepted the machine
/// stands last in the ledger, reserved and idle; where it was not, the
/// ledger is as it was.
pub proof fn lemma_booked_keeps_wf(
    config: &SpacerConfig,
    state: StateView,
    machine: Seq<char>,
    user: Seq<char>,
    now: u64,
    datetime: i64,
)
    requires
        sound(config, state),
        state.accepts(now),
    ensures
        sound(config, booked(config, state, machine, user, now, datetime).0),
        booked(config, state, machine, user, now, datetime).0.clock == now,
        names(state.ledger).contains(machine) ==> booked(
            config,
            state,
            machine,
            user,
            now,
            datetime,
        ).0.ledger == state.ledger,
        !names(state.ledger).contains(machine) ==> booked(
            config,
            state,
            machine,
            user,
            now,
            datetime,
        ).0.ledger == state.ledger.push((machine, BookingView::fresh(user, now, datetime))),
{
    lemma_time_passes(state, now);
    if !names(state.ledger).contains(machine) {
        let before = state.ledger;
        let after = before.push((machine, BookingView::fresh(user, now, datetime)));
        let reserved = StateView { ledger: after, ..state.at(now) };
        assert forall|first: int, second: int|
            0 <= first < after.len() && 0 <= second < after.len() && first != second implies names(
            after,
        )[first] != names(after)[second] by {
            if first < before.len() {
                assert(names(after)[first] == names(before)[first]);
            }
            if second < before.len() {
                assert(names(after)[second] == names(before)[second]);
            }
        }
        assert forall|at: int| 0 <= at < after.len() implies {
            &&& (#[trigger] after[at]).1.wf()
            &&& after[at].1.settled_by() <= now
        } by {
            if at < before.len() {
                assert(after[at] == before[at]);
            }
        }
        assert(sound(config, reserved));
        lemma_arbitration_keeps_wf(config, reserved, machine, false, true, true, now);
    }
}

/// A release leaves a well-formed state, and the machine out of the
/// ledger.
pub proof fn lemma_released_keeps_wf(
    config: &SpacerConfig,
    state: StateView,
    machine: Seq<char>,
    now: u64,
)
    requires
        sound(config, state),
        state.accepts(now),
    ensures
        sound(config, released(config, state, machine, now).0),
        released(config, state, machine, now).0.clock == now,
        !names(released(config, state, machine, now).0.ledger).contains(machine),
{
    lemma_time_passes(state, now);
    names(state.ledger).index_of_first_ensures(machine);
    match names(state.ledger).index_of_first(machine) {
        Some(gone) => {
            let before = state.ledger;
            let after = before.remove(gone);
            let vacated = StateView { ledger: after, ..state.at(now) };
            assert forall|at: int| 0 <= at < after.len() implies #[trigger] after[at] == before[if at
                < gone {
                at
            } else {
                at + 1
            }] by {}
            assert forall|first: int, second: int|
                0 <= first < after.len() && 0 <= second < after.len() && first != second implies names(
                after,
            )[first] != names(after)[second] by {
                let first_origin = if first < gone {
                    first
                } else {
                    first + 1
                };
                let second_origin = if second < gone {
                    second
                } else {
                    second + 1
                };
                assert(names(after)[first] == names(before)[first_origin]);
                assert(names(after)[second] == names(before)[second_origin]);
            }
            assert forall|at: int| 0 <= at < after.len() implies names(after)[at] != machine by {
                let origin = if at < gone {
                    at
                } else {
                    at + 1
                };
                assert(names(after)[at] == names(before)[origin]);
                assert(names(before)[gone] == machine);
            }
            assert forall|at: int| 0 <= at < after.len() implies {
                &&& (#[trigger] after[at]).1.wf()
                &&& after[at].1.settled_by() <= now
            } by {
                let origin = if at < gone {
                    at
                } else {
                    at + 1
                };
                assert(after[at] == before[origin]);
            }
            assert(sound(config, vacated));
            lemma_arbitration_keeps_wf(
                config,
                vacated,
                machine,
                before[gone].1.is_running(),
                true,
                false,
                now,
            );
        },
        None => {},
    }
}

/// A report of activity leaves a well-formed state, with the same machines
/// in the ledger.
pub proof fn lemma_reported_keeps_wf(
    config: &SpacerConfig,
    state: StateView,
    machine: Seq<char>,
    power: bool,
    now: u64,
)
    requires
        sound(config, state),
        state.accepts(now),
    ensures
        sound(config, reported(config, state, machine, power, now).0),
        reported(config, state, machine, power, now).0.clock == now,
        names(reported(config, state, machine, power, now).0.ledger) == names(state.ledger),
{
    lemma_time_passes(state, now);
    names(state.ledger).index_of_first_ensures(machine);
    match names(state.ledger).index_of_first(machine) {
        Some(at) => {
            let booking = state.ledger[at].1;
            if booking.is_running() != power {
                let before = state.ledger;
                let after = before.update(at, (machine, booking.after_report(power, now)));
                let recorded = StateView { ledger: after, ..state.at(now) };
                assert(names(after) =~= names(before));
                assert(before[at].1.wf());
                assert forall|other: int| 0 <= other < after.len() implies {
                    &&& (#[trigger] after[other]).1.wf()
                    &&& after[other].1.settled_by() <= now
                } by {
                    if other != at {
                        assert(after[other] == before[other]);
                    }
                }
                assert(sound(config, recorded));
                lemma_arbitration_keeps_wf(config, recorded, machine, true, false, power, now);
            }
        },
        None => {},
    }
}

/// Whatever the message, the state that it leaves is well-formed, at the
/// instant of the message.
pub proof fn lemma_handled_keeps_wf(
    config: &SpacerConfig,
    state: StateView,
    topic: Seq<char>,
    payload: Seq<char>,
    reading: Result<bool, Fault>,
    now: u64,
    datetime: i64,
)
    requires
        sound(config, state),
        state.accepts(now),
    ensures
        sound(config, handled(config, state, topic, payload, reading, now, datetime).0),
        handled(config, state, topic, payload, reading, now, datetime).0.clock == now,
{
    lemma_time_passes(state, now);
    match reading {
        Ok(power) => lemma_reported_keeps_wf(config, state, split_on(topic, '/')[1], power, now),
        Err(_) => {},
    }
    let fields = split_on(payload, ';');
    if fields.len() == 3 {
        lemma_booked_keeps_wf(config, state, fields[0], fields[1], now, datetime);
        lemma_released_keeps_wf(config, state, fields[0], now);
    }
}

/// A message as it reaches the dispatcher: topic and payload, what the
/// payload reads as telemetry, and the instant and the date of its arrival.
pub struct Arrival {
    pub topic: Seq<char>,
    pub payload: Seq<char>,
    pub reading: Result<bool, Fault>,
    pub now: u64,
    pub datetime: i64,
}

/// The state after a series of messages.
pub open spec fn after_all(config: &SpacerConfig, state: StateView, arrivals: Seq<Arrival>) -> StateView
    decreases arrivals.len(),
{
    if arrivals.len() == 0 {
        state
    } else {
        let last = arrivals.last();
        handled(
            config,
            after_all(config, state, arrivals.drop_last()),
            last.topic,
            last.payload,
            last.reading,
            last.now,
            last.datetime,
        ).0
    }
}

/// Whatever messages arrive, as long as their instants never decrease
/// every state on the way fits the configuration: no machine is booked
/// twice, a booking runs exactly when the start of its run is on record,
/// what it has run fits into the time since it was made, the queue is
/// ordered by deadline, and every slave in it has a profile.
pub proof fn lemma_after_all_keeps_wf(config: &SpacerConfig, state: StateView, arrivals: Seq<Arrival>)
    requires
        sound(config, state),
        forall|at: int|
            0 <= at < arrivals.len() ==> state.clock <= (#[trigger] arrivals[at]).now
                <= LATEST_INSTANT,
        forall|first: int, second: int|
            0 <= first <= second < arrivals.len() ==> arrivals[first].now <= arrivals[second].now,
    ensures
        sound(config, after_all(config, state, arrivals)),
        arrivals.len() > 0 ==> after_all(config, state, arrivals).clock == arrivals.last().now,
        forall|at: int|
            0 <= at < after_all(config, state, arrivals).ledger.len() ==> (#[trigger] after_all(
                config,
                state,
                arrivals,
            ).ledger[at]).1.is_running() == (after_all(
                config,
                state,
                arrivals,
            ).ledger[at].1.currently_running_since is Some),
        in_order(after_all(config, state, arrivals).queue),
    decreases arrivals.len(),
{
    if arrivals.len() > 0 {
        let earlier = arrivals.drop_last();
        lemma_after_all_keeps_wf(config, state, earlier);
        let last = arrivals.last();
        let before = after_all(config, state, earlier);
        if earlier.len() > 0 {
            assert(earlier.last() == arrivals[arrivals.len() - 2]);
        }
        assert(before.accepts(last.now));
        lemma_handled_keeps_wf(
            config,
            before,
            last.topic,
            last.payload,
            last.reading,
            last.now,
            last.datetime,
        );
    }
}

} // verus!
