//! Small tables keyed by name, held as vectors of pairs.
//!
//! The order of a table is the order in which its entries were given or
//! inserted; a name is looked up by its first entry.

use vstd::prelude::*;
use crate::utils::text::same_text;

verus! {

/// The names under which the entries of a table are filed, in table order.
pub open spec fn names<V>(table: Seq<(Seq<char>, V)>) -> Seq<Seq<char>> {
    Seq::new(table.len(), |at: int| table[at].0)
}

/// What a table holds under `name`: the value of the first entry of that
/// name.
pub open spec fn lookup<V>(table: Seq<(Seq<char>, V)>, name: Seq<char>) -> Option<V> {
    match names(table).index_of_first(name) {
        Some(at) => Some(table[at].1),
        None => None,
    }
}

/// An index is the one `index_of_first` gives exactly when it holds the
/// needle and nothing before it does.
pub proof fn lemma_first_index(haystack: Seq<Seq<char>>, needle: Seq<char>, at: int)
    requires
        0 <= at < haystack.len(),
        haystack[at] == needle,
        forall|before: int| 0 <= before < at ==> haystack[before] != needle,
    ensures
        haystack.index_of_first(needle) == Some(at),
{
    haystack.index_of_first_ensures(needle);
    assert(haystack.contains(needle));
}

/// Without an occurrence there is no first index.
pub proof fn lemma_no_index(haystack: Seq<Seq<char>>, needle: Seq<char>)
    requires
        forall|at: int| 0 <= at < haystack.len() ==> haystack[at] != needle,
    ensures
        haystack.index_of_first(needle) is None,
{
    haystack.index_of_first_ensures(needle);
}

/// Index of the first string equal to `needle`.
pub fn position(haystack: &Vec<String>, needle: &str) -> (found: Option<usize>)
    ensures
        match found {
            Some(at) => at < haystack.len() && haystack.deep_view().index_of_first(needle@) == Some(
                at as int,
            ),
            None => haystack.deep_view().index_of_first(needle@) is None,
        },
{
    let mut at: usize = 0;
    while at < haystack.len()
        invariant
            at <= haystack.len(),
            forall|before: int| 0 <= before < at ==> haystack.deep_view()[before] != needle@,
        decreases haystack.len() - at,
    {
        if same_text(haystack[at].as_str(), needle) {
            proof {
                lemma_first_index(haystack.deep_view(), needle@, at as int);
            }
            return Some(at);
        }
        at = at + 1;
    }
    proof {
        lemma_no_index(haystack.deep_view(), needle@);
    }
    None
}

/// Index of the first entry filed under `name`.
pub fn find<V: DeepView>(table: &Vec<(String, V)>, name: &str) -> (found: Option<usize>)
    ensures
        match found {
            Some(at) => at < table.len() && names(table.deep_view()).index_of_first(name@) == Some(
                at as int,
            ),
            None => names(table.deep_view()).index_of_first(name@) is None,
        },
{
    let mut at: usize = 0;
    while at < table.len()
        invariant
            at <= table.len(),
            forall|before: int| 0 <= before < at ==> names(table.deep_view())[before] != name@,
        decreases table.len() - at,
    {
        if same_text(table[at].0.as_str(), name) {
            proof {
                lemma_first_index(names(table.deep_view()), name@, at as int);
            }
            return Some(at);
        }
        at = at + 1;
    }
    proof {
        lemma_no_index(names(table.deep_view()), name@);
    }
    None
}

/// A table after `value` was filed under `name`: in place of the entry of
/// that name where there is one, else behind the last entry.
pub open spec fn filed<V>(table: Seq<(Seq<char>, V)>, name: Seq<char>, value: V) -> Seq<
    (Seq<char>, V),
> {
    match names(table).index_of_first(name) {
        Some(at) => table.update(at, (name, value)),
        None => table.push((name, value)),
    }
}

/// Files `value` under `name`, in place of what the table held under that
/// name.
pub fn put<V: DeepView>(table: &mut Vec<(String, V)>, name: String, value: V)
    ensures
        final(table).deep_view() == filed(old(table).deep_view(), name@, value.deep_view()),
{
    let ghost before = table.deep_view();
    match find(table, name.as_str()) {
        Some(at) => {
            table.set(at, (name, value));
            assert(table.deep_view() =~= before.update(at as int, (name@, value.deep_view())));
        },
        None => {
            table.push((name, value));
            assert(table.deep_view() =~= before.push((name@, value.deep_view())));
        },
    }
}

} // verus!
