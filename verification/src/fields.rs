//! A map from names to values, both text, that keeps the order in which names
//! were first stored.

use vstd::prelude::*;

use crate::text::{
    lemma_occurrence, lemma_occurrence_is, lemma_occurrence_none, lemma_occurs_single,
    occurrence, occurs_at, same_text,
};

verus! {

/// The names of `entries`, in order.
pub open spec fn names_of<V>(entries: Seq<(Seq<char>, V)>) -> Seq<Seq<char>> {
    Seq::new(entries.len(), |i: int| entries[i].0)
}

/// The position of the first entry that is named `name`.
pub open spec fn position<V>(entries: Seq<(Seq<char>, V)>, name: Seq<char>) -> Option<int> {
    occurrence(names_of(entries), seq![name])
}

/// The value stored under `name`.
pub open spec fn value_of(entries: Seq<(Seq<char>, Seq<char>)>, name: Seq<char>) -> Option<
    Seq<char>,
> {
    match position(entries, name) {
        Some(i) => Some(entries[i].1),
        None => None,
    }
}

/// `entries` after `value` is stored under `name`: the value replaces the one
/// that the name had, where it stands; a new name goes to the end.
pub open spec fn stored(
    entries: Seq<(Seq<char>, Seq<char>)>,
    name: Seq<char>,
    value: Seq<char>,
) -> Seq<(Seq<char>, Seq<char>)> {
    match position(entries, name) {
        Some(i) => entries.update(i, (name, value)),
        None => entries.push((name, value)),
    }
}

/// `entries` after each pair of `pairs` is stored, the first pair first.
pub open spec fn stored_all(
    entries: Seq<(Seq<char>, Seq<char>)>,
    pairs: Seq<(Seq<char>, Seq<char>)>,
) -> Seq<(Seq<char>, Seq<char>)>
    decreases pairs.len(),
{
    if pairs.len() == 0 {
        entries
    } else {
        stored(stored_all(entries, pairs.drop_last()), pairs.last().0, pairs.last().1)
    }
}

/// Storing the pairs of `first` and then those of `second` is storing those of
/// both in that order; and storing pairs keeps distinct names distinct.
pub proof fn lemma_stored_all(
    entries: Seq<(Seq<char>, Seq<char>)>,
    first: Seq<(Seq<char>, Seq<char>)>,
    second: Seq<(Seq<char>, Seq<char>)>,
)
    ensures
        stored_all(stored_all(entries, first), second) == stored_all(entries, first + second),
        distinct_names(entries) ==> distinct_names(stored_all(entries, first)),
    decreases first.len() + second.len(),
{
    if second.len() == 0 {
        if first.len() > 0 {
            lemma_stored_all(entries, first.drop_last(), second);
            if distinct_names(entries) {
                lemma_stored(
                    stored_all(entries, first.drop_last()),
                    first.last().0,
                    first.last().1,
                    first.last().0,
                );
            }
        }
    } else {
        lemma_stored_all(entries, first, second.drop_last());
        assert((first + second).drop_last() == first + second.drop_last());
        if first.len() > 0 {
            lemma_stored_all(entries, first.drop_last(), Seq::empty());
            if distinct_names(entries) {
                lemma_stored(
                    stored_all(entries, first.drop_last()),
                    first.last().0,
                    first.last().1,
                    first.last().0,
                );
            }
        }
    }
}

/// The value of the last pair of `pairs` that is named `name`.
pub open spec fn last_value(pairs: Seq<(Seq<char>, Seq<char>)>, name: Seq<char>) -> Option<
    Seq<char>,
>
    decreases pairs.len(),
{
    if pairs.len() == 0 {
        None
    } else if pairs.last().0 == name {
        Some(pairs.last().1)
    } else {
        last_value(pairs.drop_last(), name)
    }
}

/// Storing pairs one after the other, starting with nothing, keeps for every
/// name the value of the last pair that has it, and keeps no name twice.
pub proof fn lemma_last_value_is_kept(pairs: Seq<(Seq<char>, Seq<char>)>, name: Seq<char>)
    ensures
        distinct_names(stored_all(Seq::empty(), pairs)),
        value_of(stored_all(Seq::empty(), pairs), name) == last_value(pairs, name),
    decreases pairs.len(),
{
    let nothing = Seq::<(Seq<char>, Seq<char>)>::empty();
    lemma_stored_all(nothing, pairs, Seq::empty());
    if pairs.len() == 0 {
        lemma_position_none(nothing, name);
    } else {
        let before = stored_all(nothing, pairs.drop_last());
        lemma_last_value_is_kept(pairs.drop_last(), name);
        lemma_stored(before, pairs.last().0, pairs.last().1, name);
    }
}

/// Storing pairs that have distinct names, starting with nothing, gives those
/// pairs in their order.
pub proof fn lemma_distinct_pairs_are_kept(pairs: Seq<(Seq<char>, Seq<char>)>)
    requires
        distinct_names(pairs),
    ensures
        stored_all(Seq::empty(), pairs) == pairs,
    decreases pairs.len(),
{
    if pairs.len() > 0 {
        let front = pairs.drop_last();
        assert forall|i: int, j: int|
            0 <= i < front.len() && 0 <= j < front.len() && i != j implies (#[trigger] front[i]).0
            != (#[trigger] front[j]).0 by {
            assert(front[i] == pairs[i] && front[j] == pairs[j]);
        }
        lemma_distinct_pairs_are_kept(front);
        assert forall|j: int| 0 <= j < front.len() implies (#[trigger] front[j]).0
            != pairs.last().0 by {
            assert(front[j] == pairs[j]);
            assert(pairs[pairs.len() - 1] == pairs.last());
        }
        lemma_position_none(front, pairs.last().0);
        assert(front.push(pairs.last()) =~= pairs);
    }
}

/// No name occurs twice in `entries`.
pub open spec fn distinct_names(entries: Seq<(Seq<char>, Seq<char>)>) -> bool {
    forall|i: int, j: int|
        0 <= i < entries.len() && 0 <= j < entries.len() && i != j ==> (#[trigger] entries[i]).0
            != (#[trigger] entries[j]).0
}

/// The position of a name is that of an entry with that name, and no earlier
/// entry has it; a name without a position is the name of no entry.
pub proof fn lemma_position<V>(entries: Seq<(Seq<char>, V)>, name: Seq<char>)
    ensures
        match position(entries, name) {
            Some(i) => 0 <= i < entries.len() && entries[i].0 == name && forall|j: int|
                0 <= j < i ==> (#[trigger] entries[j]).0 != name,
            None => forall|j: int| 0 <= j < entries.len() ==> (#[trigger] entries[j]).0 != name,
        },
{
    let names = names_of(entries);
    lemma_occurrence(names, seq![name]);
    match position(entries, name) {
        Some(i) => {
            lemma_occurs_single(names, name, i);
            assert forall|j: int| 0 <= j < i implies (#[trigger] entries[j]).0 != name by {
                lemma_occurs_single(names, name, j);
            }
        },
        None => {
            assert forall|j: int| 0 <= j < entries.len() implies (#[trigger] entries[j]).0
                != name by {
                lemma_occurs_single(names, name, j);
            }
        },
    }
}

/// An entry named `name` with no entry of that name before it gives the name's
/// position.
pub proof fn lemma_position_is<V>(entries: Seq<(Seq<char>, V)>, name: Seq<char>, i: int)
    requires
        0 <= i < entries.len(),
        entries[i].0 == name,
        forall|j: int| 0 <= j < i ==> (#[trigger] entries[j]).0 != name,
    ensures
        position(entries, name) == Some(i),
{
    let names = names_of(entries);
    lemma_occurs_single(names, name, i);
    assert forall|j: int| 0 <= j < i implies !occurs_at(names, seq![name], j) by {
        lemma_occurs_single(names, name, j);
    }
    lemma_occurrence_is(names, seq![name], i);
}

/// A name that no entry has is without position.
pub proof fn lemma_position_none<V>(entries: Seq<(Seq<char>, V)>, name: Seq<char>)
    requires
        forall|j: int| 0 <= j < entries.len() ==> (#[trigger] entries[j]).0 != name,
    ensures
        position(entries, name) is None,
{
    let names = names_of(entries);
    assert forall|j: int| !occurs_at(names, seq![name], j) by {
        lemma_occurs_single(names, name, j);
    }
    lemma_occurrence_none(names, seq![name]);
}

/// Storing a value keeps the names distinct, makes the value the one found under
/// its name, and leaves the value of every other name as it was.
pub proof fn lemma_stored(
    entries: Seq<(Seq<char>, Seq<char>)>,
    name: Seq<char>,
    value: Seq<char>,
    other: Seq<char>,
)
    requires
        distinct_names(entries),
    ensures
        distinct_names(stored(entries, name, value)),
        value_of(stored(entries, name, value), name) == Some(value),
        other != name ==> value_of(stored(entries, name, value), other) == value_of(
            entries,
            other,
        ),
{
    let after = stored(entries, name, value);
    lemma_position(entries, name);
    lemma_position(entries, other);
    match position(entries, name) {
        Some(i) => {
            lemma_position_is(after, name, i);
        },
        None => {
            lemma_position_is(after, name, entries.len() as int);
        },
    }
    if other != name {
        match position(entries, other) {
            Some(k) => {
                lemma_position_is(after, other, k);
            },
            None => {
                lemma_position_none(after, other);
            },
        }
    }
}

/// A map from names to values that keeps the order in which names were first
/// stored. Names are compared as they are written, case and all.
#[derive(Debug)]
pub struct TextMap {
    entries: Vec<(String, String)>,
}

impl View for TextMap {
    type V = Seq<(Seq<char>, Seq<char>)>;

    closed spec fn view(&self) -> Seq<(Seq<char>, Seq<char>)> {
        Seq::new(self.entries@.len(), |i: int| (self.entries@[i].0@, self.entries@[i].1@))
    }
}

impl Clone for TextMap {
    fn clone(&self) -> (r: TextMap)
        ensures
            r@ == self@,
    {
        let mut entries: Vec<(String, String)> = Vec::new();
        let mut i: usize = 0;
        while i < self.entries.len()
            invariant
                i <= self.entries@.len(),
                entries@.len() == i,
                forall|j: int|
                    0 <= j < i ==> (#[trigger] entries@[j]).0@ == self.entries@[j].0@
                        && entries@[j].1@ == self.entries@[j].1@,
            decreases self.entries@.len() - i,
        {
            entries.push((self.entries[i].0.clone(), self.entries[i].1.clone()));
            i += 1;
        }
        let r = TextMap { entries };
        r
    }
}

impl TextMap {
    /// A map without entries.
    pub fn new() -> (r: TextMap)
        ensures
            r@ == Seq::<(Seq<char>, Seq<char>)>::empty(),
    {
        let r = TextMap { entries: Vec::new() };
        r
    }

    /// The number of entries.
    pub fn len(&self) -> (r: usize)
        ensures
            r == self@.len(),
    {
        self.entries.len()
    }

    /// The name of the entry at position `i`.
    pub fn name_at(&self, i: usize) -> (r: &str)
        requires
            i < self@.len(),
        ensures
            r@ == self@[i as int].0,
    {
        self.entries[i].0.as_str()
    }

    /// The value of the entry at position `i`.
    pub fn value_at(&self, i: usize) -> (r: &str)
        requires
            i < self@.len(),
        ensures
            r@ == self@[i as int].1,
    {
        self.entries[i].1.as_str()
    }

    /// Finds the entry that is named `name`.
    fn find(&self, name: &str) -> (r: Option<usize>)
        ensures
            match r {
                Some(i) => position(self@, name@) == Some(i as int) && i < self@.len(),
                None => position(self@, name@) is None,
            },
    {
        let mut i: usize = 0;
        while i < self.entries.len()
            invariant
                i <= self.entries@.len(),
                self@.len() == self.entries@.len(),
                forall|j: int| 0 <= j < i ==> (#[trigger] self@[j]).0 != name@,
            decreases self.entries.len() - i,
        {
            if same_text(self.entries[i].0.as_str(), name) {
                proof {
                    lemma_position_is(self@, name@, i as int);
                }
                return Some(i);
            }
            i += 1;
        }
        proof {
            lemma_position_none(self@, name@);
        }
        None
    }

    /// The value stored under `name`.
    pub fn get(&self, name: &str) -> (r: Option<&String>)
        ensures
            match r {
                Some(v) => value_of(self@, name@) == Some(v@),
                None => value_of(self@, name@) is None,
            },
    {
        match self.find(name) {
            Some(i) => Some(&self.entries[i].1),
            None => None,
        }
    }

    /// Stores `value` under `name`. The value that the name had, if any, is
    /// replaced.
    pub fn insert(&mut self, name: String, value: String)
        ensures
            final(self)@ == stored(old(self)@, name@, value@),
            distinct_names(old(self)@) ==> distinct_names(final(self)@),
    {
        proof {
            if distinct_names(self@) {
                lemma_stored(self@, name@, value@, name@);
            }
        }
        match self.find(name.as_str()) {
            Some(i) => {
                self.entries.set(i, (name, value));
            },
            None => {
                self.entries.push((name, value));
            },
        }
        assert(self@ =~= stored(old(self)@, name@, value@));
    }
}

} // verus!
