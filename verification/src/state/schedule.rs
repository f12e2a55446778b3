//! The queue of delayed shutdowns.
//!
//! An entry is the deadline at which a slave is to lose power. Entries are
//! appended with a deadline a fixed delay after the instant of the
//! decision. As instants never decrease, the queue stays ordered by
//! deadline, and what is due is always a prefix of it.

use std::collections::VecDeque;
use vstd::prelude::*;
use crate::utils::table::{lemma_first_index, lemma_no_index};
use crate::utils::text::same_text;

verus! {

/// Delay between the decision to cut the power of a slave that needs
/// trailing time and the cut itself: thirty seconds.
pub const SHUTDOWN_DELAY: u64 = 30_000_000_000;

/// The latest instant at which a shutdown can still be scheduled.
pub const LATEST_INSTANT: u64 = 18_446_744_043_709_551_615;

/// A pending shutdown: its deadline and the slave's name.
pub type Pending = (u64, Seq<char>);

/// The slaves of the entries, in queue order.
pub open spec fn slaves_in(queue: Seq<Pending>) -> Seq<Seq<char>> {
    Seq::new(queue.len(), |at: int| queue[at].1)
}

/// The deadlines never decrease along the queue.
pub open spec fn in_order(queue: Seq<Pending>) -> bool {
    forall|first: int, second: int|
        0 <= first <= second < queue.len() ==> queue[first].0 <= queue[second].0
}

/// Every deadline is at most the fixed delay after `clock`.
pub open spec fn within_delay(queue: Seq<Pending>, clock: u64) -> bool {
    forall|at: int| 0 <= at < queue.len() ==> (#[trigger] queue[at]).0 <= clock + SHUTDOWN_DELAY
}

/// The queue after a shutdown of `slave` was decided at `now`.
pub open spec fn scheduled(queue: Seq<Pending>, slave: Seq<char>, now: u64) -> Seq<Pending> {
    queue.push(((now + SHUTDOWN_DELAY) as u64, slave))
}

/// The queue after the shutdown of `slave` was called off: without the
/// first entry for that slave, and unchanged if there is none.
pub open spec fn cancelled(queue: Seq<Pending>, slave: Seq<char>) -> Seq<Pending> {
    match slaves_in(queue).index_of_first(slave) {
        Some(at) => queue.remove(at),
        None => queue,
    }
}

/// The number of entries at the head of the queue that are due at `now`.
pub open spec fn due_count(queue: Seq<Pending>, now: u64) -> nat
    decreases queue.len(),
{
    if queue.len() > 0 && queue[0].0 <= now {
        1 + due_count(queue.drop_first(), now)
    } else {
        0
    }
}

/// The queue after a series of decisions, each a slave and the instant of
/// the decision.
pub open spec fn scheduled_all(queue: Seq<Pending>, decisions: Seq<(Seq<char>, u64)>) -> Seq<
    Pending,
>
    decreases decisions.len(),
{
    if decisions.len() == 0 {
        queue
    } else {
        scheduled(
            scheduled_all(queue, decisions.drop_last()),
            decisions.last().0,
            decisions.last().1,
        )
    }
}

/// The due entries are a prefix of the queue, and every one of them has a
/// deadline that has passed.
pub proof fn lemma_due_prefix(queue: Seq<Pending>, now: u64)
    ensures
        due_count(queue, now) <= queue.len(),
        forall|at: int| 0 <= at < due_count(queue, now) ==> (#[trigger] queue[at]).0 <= now,
        due_count(queue, now) < queue.len() ==> queue[due_count(queue, now) as int].0 > now,
    decreases queue.len(),
{
    if queue.len() > 0 && queue[0].0 <= now {
        let rest = queue.drop_first();
        lemma_due_prefix(rest, now);
        assert forall|at: int| 0 <= at < due_count(queue, now) implies (#[trigger] queue[at]).0
            <= now by {
            if at > 0 {
                assert(queue[at] == rest[at - 1]);
            }
        }
        if due_count(queue, now) < queue.len() {
            assert(queue[due_count(queue, now) as int] == rest[due_count(rest, now) as int]);
        }
    }
}

/// In an ordered queue nothing behind the due prefix is due.
pub proof fn lemma_due_is_all(queue: Seq<Pending>, now: u64)
    requires
        in_order(queue),
    ensures
        forall|at: int|
            due_count(queue, now) <= at < queue.len() ==> (#[trigger] queue[at]).0 > now,
{
    lemma_due_prefix(queue, now);
}

/// A decision taken no earlier than the clock keeps the queue ordered, and
/// within the delay of the instant of the decision.
pub proof fn lemma_schedule_keeps_order(queue: Seq<Pending>, slave: Seq<char>, clock: u64, now: u64)
    requires
        in_order(queue),
        within_delay(queue, clock),
        clock <= now <= LATEST_INSTANT,
    ensures
        in_order(scheduled(queue, slave, now)),
        within_delay(scheduled(queue, slave, now), now),
{
    let after = scheduled(queue, slave, now);
    assert forall|first: int, second: int| 0 <= first <= second < after.len() implies after[first].0
        <= after[second].0 by {
        if second < queue.len() {
            assert(after[first] == queue[first] && after[second] == queue[second]);
        } else if first < queue.len() {
            assert(after[first] == queue[first]);
        }
    }
    assert forall|at: int| 0 <= at < after.len() implies (#[trigger] after[at]).0 <= now
        + SHUTDOWN_DELAY by {
        if at < queue.len() {
            assert(after[at] == queue[at]);
        }
    }
}

/// Whatever the decisions, as long as their instants never decrease the
/// queue stays ordered by deadline.
pub proof fn lemma_decisions_keep_order(
    queue: Seq<Pending>,
    clock: u64,
    decisions: Seq<(Seq<char>, u64)>,
)
    requires
        in_order(queue),
        within_delay(queue, clock),
        forall|at: int| 0 <= at < decisions.len() ==> clock <= (#[trigger] decisions[at]).1 <= LATEST_INSTANT,
        forall|first: int, second: int|
            0 <= first <= second < decisions.len() ==> decisions[first].1 <= decisions[second].1,
    ensures
        in_order(scheduled_all(queue, decisions)),
        decisions.len() > 0 ==> within_delay(scheduled_all(queue, decisions), decisions.last().1),
    decreases decisions.len(),
{
    if decisions.len() > 0 {
        let earlier = decisions.drop_last();
        lemma_decisions_keep_order(queue, clock, earlier);
        let last = decisions.last();
        if earlier.len() == 0 {
            lemma_schedule_keeps_order(queue, last.0, clock, last.1);
        } else {
            assert(earlier.last() == decisions[decisions.len() - 2]);
            lemma_schedule_keeps_order(
                scheduled_all(queue, earlier),
                last.0,
                earlier.last().1,
                last.1,
            );
        }
    }
}

/// Calling off keeps the queue ordered and within the delay.
pub proof fn lemma_cancel_keeps_order(queue: Seq<Pending>, slave: Seq<char>, clock: u64)
    requires
        in_order(queue),
        within_delay(queue, clock),
    ensures
        in_order(cancelled(queue, slave)),
        within_delay(cancelled(queue, slave), clock),
        forall|at: int|
            0 <= at < cancelled(queue, slave).len() ==> queue.contains(
                #[trigger] cancelled(queue, slave)[at],
            ),
{
    slaves_in(queue).index_of_first_ensures(slave);
    match slaves_in(queue).index_of_first(slave) {
        Some(gone) => {
            let after = queue.remove(gone);
            assert forall|at: int| 0 <= at < after.len() implies #[trigger] after[at] == queue[if at
                < gone {
                at
            } else {
                at + 1
            }] by {}
            assert forall|at: int| 0 <= at < after.len() implies queue.contains(
                #[trigger] after[at],
            ) by {
                let origin = if at < gone {
                    at
                } else {
                    at + 1
                };
                assert(after[at] == queue[origin]);
            }
        },
        None => {},
    }
}

/// Calling off the shutdown of a slave that has none pending changes
/// nothing.
pub proof fn lemma_cancel_absent(queue: Seq<Pending>, slave: Seq<char>)
    requires
        !slaves_in(queue).contains(slave),
    ensures
        cancelled(queue, slave) == queue,
{
    slaves_in(queue).index_of_first_ensures(slave);
}

/// Calling off twice in a row is the same as calling off once, where the
/// slave had at most one shutdown pending.
pub proof fn lemma_cancel_twice(queue: Seq<Pending>, slave: Seq<char>)
    requires
        forall|first: int, second: int|
            0 <= first < second < queue.len() ==> !(queue[first].1 == slave && queue[second].1
                == slave),
    ensures
        !slaves_in(cancelled(queue, slave)).contains(slave),
        cancelled(cancelled(queue, slave), slave) == cancelled(queue, slave),
{
    slaves_in(queue).index_of_first_ensures(slave);
    let once = cancelled(queue, slave);
    match slaves_in(queue).index_of_first(slave) {
        Some(gone) => {
            assert forall|at: int| 0 <= at < once.len() implies slaves_in(once)[at] != slave by {
                let origin = if at < gone {
                    at
                } else {
                    at + 1
                };
                assert(once[at] == queue[origin]);
                assert(slaves_in(queue)[origin] == queue[origin].1);
                assert(slaves_in(queue)[gone] == queue[gone].1);
            }
        },
        None => {},
    }
    lemma_cancel_absent(once, slave);
}

/// The shutdowns that have been decided and not yet carried out or called
/// off, oldest first.
#[derive(Debug, Clone)]
pub struct ShutdownQueue {
    pub entries: VecDeque<(u64, String)>,
}

impl View for ShutdownQueue {
    type V = Seq<Pending>;

    open spec fn view(&self) -> Seq<Pending> {
        self.entries.deep_view()
    }
}

impl ShutdownQueue {
    /// A queue without entries.
    pub fn new() -> (queue: ShutdownQueue)
        ensures
            queue@ == Seq::<Pending>::empty(),
    {
        let queue = ShutdownQueue { entries: VecDeque::new() };
        assert(queue@ =~= Seq::<Pending>::empty());
        queue
    }

    /// Number of pending shutdowns.
    pub fn len(&self) -> (length: usize)
        ensures
            length == self@.len(),
    {
        self.entries.len()
    }

    /// Checks that the queue is ordered by deadline and that every deadline
    /// is within the delay of `clock`.
    pub fn is_ordered_within(&self, clock: u64) -> (fine: bool)
        ensures
            fine == (in_order(self@) && within_delay(self@, clock)),
    {
        let mut at: usize = 0;
        while at < self.entries.len()
            invariant
                at <= self.entries.len(),
                forall|first: int, second: int|
                    0 <= first <= second < at ==> self@[first].0 <= self@[second].0,
                forall|seen: int| 0 <= seen < at ==> (#[trigger] self@[seen]).0 <= clock + SHUTDOWN_DELAY,
            decreases self.entries.len() - at,
        {
            let deadline: u64 = self.entries[at].0;
            assert(self@[at as int].0 == deadline);
            if deadline >= SHUTDOWN_DELAY && deadline - SHUTDOWN_DELAY > clock {
                return false;
            }
            if at > 0 {
                let earlier: u64 = self.entries[at - 1].0;
                assert(self@[at - 1].0 == earlier);
                if earlier > deadline {
                    return false;
                }
            }
            at = at + 1;
        }
        true
    }

    /// Appends a shutdown of `slave`, due the fixed delay after `now`.
    pub fn schedule(&mut self, slave: String, now: u64)
        requires
            now <= LATEST_INSTANT,
        ensures
            final(self)@ == scheduled(old(self)@, slave@, now),
    {
        let deadline: u64 = now + SHUTDOWN_DELAY;
        self.entries.push_back((deadline, slave));
        assert(self@ =~= scheduled(old(self)@, slave@, now));
    }

    /// Calls off the shutdown of `slave`: removes its first entry; a slave
    /// without an entry is left alone. Returns whether an entry was
    /// removed.
    pub fn cancel(&mut self, slave: &str) -> (removed: bool)
        ensures
            final(self)@ == cancelled(old(self)@, slave@),
            removed == slaves_in(old(self)@).contains(slave@),
    {
        let mut at: usize = 0;
        while at < self.entries.len()
            invariant
                at <= self.entries.len(),
                *self == *old(self),
                forall|before: int| 0 <= before < at ==> slaves_in(self@)[before] != slave@,
            decreases self.entries.len() - at,
        {
            if same_text(self.entries[at].1.as_str(), slave) {
                proof {
                    assert(slaves_in(self@)[at as int] == slave@);
                    lemma_first_index(slaves_in(self@), slave@, at as int);
                    slaves_in(self@).index_of_first_ensures(slave@);
                }
                self.entries.remove(at);
                assert(self@ =~= old(self)@.remove(at as int));
                return true;
            }
            at = at + 1;
        }
        proof {
            lemma_no_index(slaves_in(self@), slave@);
            slaves_in(self@).index_of_first_ensures(slave@);
        }
        false
    }

    /// Takes the entries that are due at `now` off the head of the queue
    /// and returns their slaves, oldest first. In an ordered queue these
    /// are all the entries whose deadline has passed.
    pub fn pop_due(&mut self, now: u64) -> (due: Vec<String>)
        ensures
            due.len() == due_count(old(self)@, now),
            due.len() <= old(self)@.len(),
            due.deep_view() == slaves_in(old(self)@.take(due.len() as int)),
            final(self)@ == old(self)@.skip(due.len() as int),
            forall|at: int| 0 <= at < due.len() ==> (#[trigger] old(self)@[at]).0 <= now,
            in_order(old(self)@) ==> forall|at: int|
                0 <= at < final(self)@.len() ==> (#[trigger] final(self)@[at]).0 > now,
    {
        let mut due: Vec<String> = Vec::new();
        proof {
            lemma_due_prefix(old(self)@, now);
            lemma_due_prefix(self@, now);
            assert(self@.skip(0) =~= self@);
            assert(due.deep_view() =~= slaves_in(old(self)@.take(0)));
        }
        while self.entries.len() > 0 && self.entries[0].0 <= now
            invariant
                due.len() <= old(self)@.len(),
                due.len() + due_count(self@, now) == due_count(old(self)@, now),
                due.deep_view() == slaves_in(old(self)@.take(due.len() as int)),
                self@ == old(self)@.skip(due.len() as int),
            decreases self.entries.len(),
        {
            let ghost before = self@;
            let ghost taken = due.deep_view();
            let entry = self.entries.pop_front();
            match entry {
                Some(entry) => {
                    assert(self@ =~= before.drop_first());
                    assert(entry.deep_view() == before[0]);
                    due.push(entry.1);
                    proof {
                        assert(self@ =~= old(self)@.skip(due.len() as int));
                        assert(due.deep_view() =~= taken.push(before[0].1));
                        assert(due.deep_view() =~= slaves_in(old(self)@.take(due.len() as int)));
                    }
                },
                None => {},
            }
        }
        proof {
            assert(due_count(self@, now) == 0);
            lemma_due_prefix(old(self)@, now);
            if in_order(old(self)@) {
                lemma_due_is_all(old(self)@, now);
            }
        }
        due
    }
}

} // verus!
