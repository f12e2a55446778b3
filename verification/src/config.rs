//! The static description of the workshop: which slaves each master
//! depends on, how each slave is switched, and the directories consulted
//! for displays and billing.

use vstd::prelude::*;
use crate::config::slave::{Slave, SlaveView};
use crate::utils::table::{filed, find, lookup, names, position, put};
use crate::utils::text::{
    lines, lines_of, parse_i32, parsed_i32, remove_all, split, split_on, without_all,
};

pub mod slave;

verus! {

/// Billing data of one user.
#[derive(Debug, Clone, Copy, PartialEq, Eq)]
pub struct UserData {
    /// Identifier under which the user is billed, in place of the name.
    pub id: Option<i32>,
    /// Whether usage by this user is billed at all.
    pub to_be_used: bool,
}

/// Billing data of one machine.
#[derive(Debug, Clone, Copy, PartialEq, Eq)]
pub struct MachineData {
    /// Article under which the machine is billed, in place of its name.
    pub id: Option<i32>,
    /// Whether usage of this machine is billed at all.
    pub to_be_used: bool,
    /// Bill the time the machine ran (`true`) or the time it was booked.
    pub power_sense: bool,
    /// Number of minutes that make one billed unit.
    pub divider: i32,
}

impl DeepView for UserData {
    type V = UserData;

    open spec fn deep_view(&self) -> UserData {
        *self
    }
}

impl DeepView for MachineData {
    type V = MachineData;

    open spec fn deep_view(&self) -> MachineData {
        *self
    }
}

/// Everything that is fixed for the lifetime of the process.
///
/// Each table is a list of pairs in the order of the source it was read
/// from; a name is looked up by its first entry.
#[derive(Debug, Clone)]
pub struct SpacerConfig {
    /// For each master the slaves that depend on it.
    pub slaves_by_master: Vec<(String, Vec<String>)>,
    /// The profile of each slave.
    pub slave_properties: Vec<(String, Slave)>,
    /// For each machine the identifier of the display attached to it.
    pub machine_ids: Vec<(String, String)>,
    /// Billing data by user name.
    pub data_user: Vec<(String, UserData)>,
    /// Billing data by machine name.
    pub data_machines: Vec<(String, MachineData)>,
    pub billing_log: String,
    pub machine_log: String,
    pub debug_log: String,
    pub mqtt_host: String,
    pub mqtt_username: Option<String>,
    pub mqtt_password: Option<String>,
    pub fabaccess_host: String,
    pub fabaccess_port: u16,
}

impl SpacerConfig {
    /// The slaves of `master`, in configuration order; `None` for a master
    /// that the topology does not know.
    pub open spec fn slaves_of(&self, master: Seq<char>) -> Option<Seq<Seq<char>>> {
        lookup(self.slaves_by_master.deep_view(), master)
    }

    /// The profile of `slave`.
    pub open spec fn profile(&self, slave: Seq<char>) -> Option<SlaveView> {
        lookup(self.slave_properties.deep_view(), slave)
    }

    /// The display attached to `machine`.
    pub open spec fn display_of(&self, machine: Seq<char>) -> Option<Seq<char>> {
        lookup(self.machine_ids.deep_view(), machine)
    }

    /// Whether `master` lists `slave` among its slaves.
    pub open spec fn serves(&self, master: Seq<char>, slave: Seq<char>) -> bool {
        match self.slaves_of(master) {
            Some(slaves) => slaves.contains(slave),
            None => false,
        }
    }

    /// Whether `slave` has a profile that marks it as continuous-duty.
    pub open spec fn runs_continuously(&self, slave: Seq<char>) -> bool {
        match self.profile(slave) {
            Some(profile) => profile.runs_continuously,
            None => false,
        }
    }

    /// The topology is usable: no master lists a slave twice, and every
    /// slave that a master lists has a profile.
    pub open spec fn wf(&self) -> bool {
        let topology = self.slaves_by_master.deep_view();
        forall|master: int|
            0 <= master < topology.len() ==> {
                &&& (#[trigger] topology[master]).1.no_duplicates()
                &&& forall|slave: int|
                    0 <= slave < topology[master].1.len() ==> self.profile(
                        #[trigger] topology[master].1[slave],
                    ) is Some
            }
    }

    /// Checks what [`SpacerConfig::wf`] states.
    pub fn is_well_formed(&self) -> (well_formed: bool)
        ensures
            well_formed == self.wf(),
    {
        let ghost topology = self.slaves_by_master.deep_view();
        let mut master: usize = 0;
        while master < self.slaves_by_master.len()
            invariant
                master <= self.slaves_by_master.len(),
                topology == self.slaves_by_master.deep_view(),
                forall|known: int|
                    0 <= known < master ==> {
                        &&& (#[trigger] topology[known]).1.no_duplicates()
                        &&& forall|slave: int|
                            0 <= slave < topology[known].1.len() ==> self.profile(
                                #[trigger] topology[known].1[slave],
                            ) is Some
                    },
            decreases self.slaves_by_master.len() - master,
        {
            let slaves = &self.slaves_by_master[master].1;
            assert(slaves.deep_view() == topology[master as int].1);
            let mut slave: usize = 0;
            while slave < slaves.len()
                invariant
                    slave <= slaves.len(),
                    0 <= master < topology.len(),
                    topology == self.slaves_by_master.deep_view(),
                    slaves.deep_view() == topology[master as int].1,
                    forall|first: int, second: int|
                        0 <= first < second < slave ==> slaves.deep_view()[first]
                            != slaves.deep_view()[second],
                    forall|known: int|
                        0 <= known < slave ==> self.profile(#[trigger] slaves.deep_view()[known])
                            is Some,
                decreases slaves.len() - slave,
            {
                let name = slaves[slave].as_str();
                assert(name@ == slaves.deep_view()[slave as int]);
                let first = position(slaves, name);
                proof {
                    slaves.deep_view().index_of_first_ensures(name@);
                }
                match first {
                    Some(at) => {
                        if at != slave {
                            assert(slaves.deep_view()[at as int] == slaves.deep_view()[slave as int]);
                            assert(!topology[master as int].1.no_duplicates());
                            return false;
                        }
                    },
                    None => {
                        assert(slaves.deep_view().contains(name@));
                    },
                }
                if find(&self.slave_properties, name).is_none() {
                    assert(self.profile(topology[master as int].1[slave as int]) is None);
                    return false;
                }
                slave = slave + 1;
            }
            assert(topology[master as int].1.no_duplicates());
            master = master + 1;
        }
        true
    }

    /// The slaves of `master`, if the topology knows it.
    pub fn slaves(&self, master: &str) -> (slaves: Option<&Vec<String>>)
        ensures
            match slaves {
                Some(slaves) => self.slaves_of(master@) == Some(slaves.deep_view()),
                None => self.slaves_of(master@) is None,
            },
    {
        match find(&self.slaves_by_master, master) {
            Some(at) => Some(&self.slaves_by_master[at].1),
            None => None,
        }
    }

    /// The profile of `slave`, if it has one.
    pub fn slave(&self, slave: &str) -> (profile: Option<&Slave>)
        ensures
            match profile {
                Some(profile) => self.profile(slave@) == Some(profile@),
                None => self.profile(slave@) is None,
            },
    {
        match find(&self.slave_properties, slave) {
            Some(at) => Some(&self.slave_properties[at].1),
            None => None,
        }
    }

    /// The display attached to `machine`, if there is one.
    pub fn machine_id(&self, machine: &str) -> (id: Option<&String>)
        ensures
            match id {
                Some(id) => self.display_of(machine@) == Some(id@),
                None => self.display_of(machine@) is None,
            },
    {
        match find(&self.machine_ids, machine) {
            Some(at) => Some(&self.machine_ids[at].1),
            None => None,
        }
    }
}

/// In a usable topology no master lists a slave twice, and every slave of a
/// master has a profile: a decision for the master meets each of its slaves
/// once.
pub proof fn lemma_slaves_listed_once(config: &SpacerConfig, master: Seq<char>)
    requires
        config.wf(),
    ensures
        config.slaves_of(master) matches Some(slaves) ==> {
            &&& slaves.no_duplicates()
            &&& forall|at: int| 0 <= at < slaves.len() ==> config.profile(#[trigger] slaves[at]) is Some
        },
{
    let topology = config.slaves_by_master.deep_view();
    names(topology).index_of_first_ensures(master);
    match names(topology).index_of_first(master) {
        Some(at) => {
            assert(topology[at].1.no_duplicates());
        },
        None => {},
    }
}

/// The word before the name of a machine in the urn of a resource.
pub const RESOURCE_PREFIX: &'static str = "urn:fabaccess:resource:";

/// The entry of the table of displays for a reader: the machine that the
/// reader names, without the word that marks it as a resource, and the id
/// of the reader.
pub open spec fn reader_of(machine: Seq<char>, id: Seq<char>) -> (Seq<char>, Seq<char>) {
    (without_all(machine, RESOURCE_PREFIX@), id)
}

/// Files the display of a reader under the machine that the reader names,
/// in place of an earlier one for that machine.
pub fn file_reader(machine_ids: &mut Vec<(String, String)>, machine: &str, id: &str)
    ensures
        final(machine_ids).deep_view() == filed(
            old(machine_ids).deep_view(),
            reader_of(machine@, id@).0,
            reader_of(machine@, id@).1,
        ),
{
    let name = remove_all(machine, RESOURCE_PREFIX);
    put(machine_ids, name, id.to_owned());
}

/// What a number read from a directory says of a flag: set by a one,
/// and by anything that is no number.
pub open spec fn flag_or_set(number: Option<i32>) -> bool {
    match number {
        Some(number) => number == 1,
        None => true,
    }
}

/// The entry that a line of the user directory makes: `name,id,billed`,
/// with anything after the third field passed over. A line with fewer
/// fields makes none.
pub open spec fn user_of(line: Seq<char>) -> Option<(Seq<char>, UserData)> {
    let fields = split_on(line, ',');
    if fields.len() < 3 {
        None
    } else {
        Some(
            (
                fields[0],
                UserData { id: parsed_i32(fields[1]), to_be_used: flag_or_set(parsed_i32(fields[2])) },
            ),
        )
    }
}

/// The entry that a line of the machine directory makes:
/// `name,id,billed,senses power,divider`. A line with fewer fields, or
/// without a number in one of the last two, makes none.
pub open spec fn machine_of(line: Seq<char>) -> Option<(Seq<char>, MachineData)> {
    let fields = split_on(line, ',');
    if fields.len() < 5 {
        None
    } else {
        match (parsed_i32(fields[3]), parsed_i32(fields[4])) {
            (Some(power_sense), Some(divider)) => Some(
                (
                    fields[0],
                    MachineData {
                        id: parsed_i32(fields[1]),
                        to_be_used: flag_or_set(parsed_i32(fields[2])),
                        power_sense: power_sense == 1,
                        divider,
                    },
                ),
            ),
            _ => None,
        }
    }
}

/// The user directory that a list of lines makes: an entry for each line,
/// a later line of a name in place of an earlier one. None if a line makes
/// no entry.
pub open spec fn users_of(lines: Seq<Seq<char>>) -> Option<Seq<(Seq<char>, UserData)>>
    decreases lines.len(),
{
    if lines.len() == 0 {
        Some(Seq::empty())
    } else {
        match (users_of(lines.drop_last()), user_of(lines.last())) {
            (Some(table), Some((name, user))) => Some(filed(table, name, user)),
            _ => None,
        }
    }
}

/// The machine directory that a list of lines makes: an entry for each
/// line, a later line of a name in place of an earlier one. None if a line
/// makes no entry.
pub open spec fn machines_of(lines: Seq<Seq<char>>) -> Option<Seq<(Seq<char>, MachineData)>>
    decreases lines.len(),
{
    if lines.len() == 0 {
        Some(Seq::empty())
    } else {
        match (machines_of(lines.drop_last()), machine_of(lines.last())) {
            (Some(table), Some((name, machine))) => Some(filed(table, name, machine)),
            _ => None,
        }
    }
}

/// If some beginning of the lines makes no user directory, neither do all
/// of them.
pub proof fn lemma_users_fail_early(lines: Seq<Seq<char>>, length: int)
    requires
        0 <= length <= lines.len(),
        users_of(lines.take(length)) is None,
    ensures
        users_of(lines) is None,
    decreases lines.len() - length,
{
    if length < lines.len() {
        assert(lines.take(length + 1).drop_last() =~= lines.take(length));
        lemma_users_fail_early(lines, length + 1);
    } else {
        assert(lines.take(length) =~= lines);
    }
}

/// If some beginning of the lines makes no machine directory, neither do
/// all of them.
pub proof fn lemma_machines_fail_early(lines: Seq<Seq<char>>, length: int)
    requires
        0 <= length <= lines.len(),
        machines_of(lines.take(length)) is None,
    ensures
        machines_of(lines) is None,
    decreases lines.len() - length,
{
    if length < lines.len() {
        assert(lines.take(length + 1).drop_last() =~= lines.take(length));
        lemma_machines_fail_early(lines, length + 1);
    } else {
        assert(lines.take(length) =~= lines);
    }
}

/// Reads one line of the user directory.
pub fn parse_user(line: &str) -> (entry: Option<(String, UserData)>)
    ensures
        entry.deep_view() == user_of(line@),
{
    let fields = split(line, ',');
    if fields.len() < 3 {
        return None;
    }
    assert(fields[0]@ == fields.deep_view()[0]);
    assert(fields[1]@ == fields.deep_view()[1]);
    assert(fields[2]@ == fields.deep_view()[2]);
    let id = parse_i32(fields[1].as_str());
    let to_be_used = match parse_i32(fields[2].as_str()) {
        Some(number) => number == 1,
        None => true,
    };
    Some((fields[0].clone(), UserData { id, to_be_used }))
}

/// Reads one line of the machine directory.
pub fn parse_machine(line: &str) -> (entry: Option<(String, MachineData)>)
    ensures
        entry.deep_view() == machine_of(line@),
{
    let fields = split(line, ',');
    if fields.len() < 5 {
        return None;
    }
    assert(fields[0]@ == fields.deep_view()[0]);
    assert(fields[1]@ == fields.deep_view()[1]);
    assert(fields[2]@ == fields.deep_view()[2]);
    assert(fields[3]@ == fields.deep_view()[3]);
    assert(fields[4]@ == fields.deep_view()[4]);
    let id = parse_i32(fields[1].as_str());
    let to_be_used = match parse_i32(fields[2].as_str()) {
        Some(number) => number == 1,
        None => true,
    };
    let power_sense = match parse_i32(fields[3].as_str()) {
        Some(number) => number == 1,
        None => {
            return None;
        },
    };
    let divider = match parse_i32(fields[4].as_str()) {
        Some(number) => number,
        None => {
            return None;
        },
    };
    Some((fields[0].clone(), MachineData { id, to_be_used, power_sense, divider }))
}

/// Reads the user directory: a line for each user. None if a line has too
/// few fields.
pub fn parse_data_user(text: &str) -> (table: Option<Vec<(String, UserData)>>)
    ensures
        table.deep_view() == users_of(lines_of(text@)),
{
    let rows = lines(text);
    let ghost all = rows.deep_view();
    let mut table: Vec<(String, UserData)> = Vec::new();
    let mut at: usize = 0;
    proof {
        assert(all.take(0) =~= Seq::<Seq<char>>::empty());
        assert(table.deep_view() =~= Seq::<(Seq<char>, UserData)>::empty());
    }
    while at < rows.len()
        invariant
            at <= rows.len(),
            all == rows.deep_view(),
            all == lines_of(text@),
            users_of(all.take(at as int)) == Some(table.deep_view()),
        decreases rows.len() - at,
    {
        proof {
            assert(all.take(at as int + 1).drop_last() =~= all.take(at as int));
            assert(all.take(at as int + 1).last() == rows[at as int]@);
        }
        match parse_user(rows[at].as_str()) {
            Some((name, user)) => {
                put(&mut table, name, user);
            },
            None => {
                proof {
                    assert(user_of(all.take(at as int + 1).last()) is None);
                    assert(users_of(all.take(at as int + 1)) is None);
                    lemma_users_fail_early(all, at as int + 1);
                }
                return None;
            },
        }
        at = at + 1;
    }
    proof {
        assert(all.take(at as int) =~= all);
    }
    Some(table)
}

/// Reads the machine directory: a line for each machine. None if a line
/// has too few fields or no number where one is needed.
pub fn parse_data_machines(text: &str) -> (table: Option<Vec<(String, MachineData)>>)
    ensures
        table.deep_view() == machines_of(lines_of(text@)),
{
    let rows = lines(text);
    let ghost all = rows.deep_view();
    let mut table: Vec<(String, MachineData)> = Vec::new();
    let mut at: usize = 0;
    proof {
        assert(all.take(0) =~= Seq::<Seq<char>>::empty());
        assert(table.deep_view() =~= Seq::<(Seq<char>, MachineData)>::empty());
    }
    while at < rows.len()
        invariant
            at <= rows.len(),
            all == rows.deep_view(),
            all == lines_of(text@),
            machines_of(all.take(at as int)) == Some(table.deep_view()),
        decreases rows.len() - at,
    {
        proof {
            assert(all.take(at as int + 1).drop_last() =~= all.take(at as int));
            assert(all.take(at as int + 1).last() == rows[at as int]@);
        }
        match parse_machine(rows[at].as_str()) {
            Some((name, machine)) => {
                put(&mut table, name, machine);
            },
            None => {
                proof {
                    assert(machine_of(all.take(at as int + 1).last()) is None);
                    assert(machines_of(all.take(at as int + 1)) is None);
                    lemma_machines_fail_early(all, at as int + 1);
                }
                return None;
            },
        }
        at = at + 1;
    }
    proof {
        assert(all.take(at as int) =~= all);
    }
    Some(table)
}

} // verus!
