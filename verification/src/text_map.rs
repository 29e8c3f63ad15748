//! A small map from texts to values, kept as the list of its entries.

use vstd::prelude::*;

use crate::split::same_text;

verus! {

/// Values by their names, in the order in which they came.
#[derive(Debug, Clone, PartialEq, Eq)]
pub struct TextMap<T> {
    pub entries: Vec<(String, T)>,
}

/// Where a name first stands in a list of entries; its length when it does
/// not.
pub open spec fn place_of<T>(entries: Seq<(String, T)>, name: Seq<char>) -> int
    decreases entries.len(),
{
    if entries.len() == 0 || entries[0].0@ == name {
        0
    } else {
        1 + place_of(entries.drop_first(), name)
    }
}

/// The value of the first entry of that name.
pub open spec fn lookup<T>(entries: Seq<(String, T)>, name: Seq<char>) -> Option<T> {
    let at = place_of(entries, name);
    if at < entries.len() {
        Some(entries[at].1)
    } else {
        None
    }
}

/// Whether no name stands twice.
pub open spec fn names_once<T>(entries: Seq<(String, T)>) -> bool {
    forall|i: int, j: int|
        0 <= i < j < entries.len() ==> (#[trigger] entries[i]).0@ != (#[trigger] entries[j]).0@
}

/// What the place of a name is.
pub proof fn lemma_place<T>(entries: Seq<(String, T)>, name: Seq<char>)
    ensures
        0 <= place_of(entries, name) <= entries.len(),
        forall|j: int| 0 <= j < place_of(entries, name) ==> (#[trigger] entries[j]).0@ != name,
        place_of(entries, name) < entries.len() ==> entries[place_of(entries, name)].0@ == name,
    decreases entries.len(),
{
    if entries.len() > 0 && entries[0].0@ != name {
        lemma_place(entries.drop_first(), name);
        assert forall|j: int| 0 <= j < place_of(entries, name) implies (#[trigger] entries[j]).0@
            != name by {
            if j > 0 {
                assert(entries[j] == entries.drop_first()[j - 1]);
            }
        }
    }
}

/// A place with these properties is the place of the name.
pub proof fn lemma_place_is<T>(entries: Seq<(String, T)>, name: Seq<char>, at: int)
    requires
        0 <= at <= entries.len(),
        forall|j: int| 0 <= j < at ==> (#[trigger] entries[j]).0@ != name,
        at < entries.len() ==> entries[at].0@ == name,
    ensures
        place_of(entries, name) == at,
{
    lemma_place(entries, name);
    let place = place_of(entries, name);
    if place < at {
        assert(entries[place].0@ != name);
    } else if at < place {
        assert(entries[at].0@ != name);
    }
}

impl<T> TextMap<T> {
    pub fn new() -> (map: Self)
        ensures
            map.entries@ == Seq::<(String, T)>::empty(),
            names_once(map.entries@),
    {
        TextMap { entries: Vec::new() }
    }

    /// The value of the first entry of that name.
    pub fn get(&self, name: &str) -> (value: Option<&T>)
        ensures
            ({
                let at = place_of(self.entries@, name@);
                match value {
                    Some(value) => 0 <= at < self.entries@.len() && *value == self.entries@[at].1,
                    None => at == self.entries@.len(),
                }
            }),
    {
        let at: usize = self.index_of(name);
        proof {
            lemma_place(self.entries@, name@);
        }
        if at < self.entries.len() {
            Some(&self.entries[at].1)
        } else {
            None
        }
    }

    fn index_of(&self, name: &str) -> (at: usize)
        ensures
            at == place_of(self.entries@, name@),
    {
        let mut i: usize = 0;
        while i < self.entries.len()
            invariant
                i <= self.entries@.len(),
                forall|j: int| 0 <= j < i ==> (#[trigger] self.entries@[j]).0@ != name@,
            decreases self.entries@.len() - i,
        {
            if same_text(self.entries[i].0.as_str(), name) {
                proof {
                    lemma_place_is(self.entries@, name@, i as int);
                }
                return i;
            }
            i += 1;
        }
        proof {
            lemma_place_is(self.entries@, name@, i as int);
        }
        i
    }

    /// Gives a name a value, in place of the one that it has.
    pub fn insert(&mut self, name: &str, value: T)
        ensures
            forall|other: Seq<char>| #[trigger]
                lookup(final(self).entries@, other) == if other == name@ {
                    Some(value)
                } else {
                    lookup(old(self).entries@, other)
                },
            names_once(old(self).entries@) ==> names_once(final(self).entries@),
    {
        let ghost before = self.entries@;
        let at: usize = self.index_of(name);
        proof {
            lemma_place(before, name@);
        }
        if at < self.entries.len() {
            self.entries.set(at, (name.to_string(), value));
        } else {
            self.entries.push((name.to_string(), value));
        }
        let ghost after = self.entries@;
        assert forall|other: Seq<char>| #[trigger] lookup(after, other) == if other == name@ {
            Some(value)
        } else {
            lookup(before, other)
        } by {
            let place = place_of(before, other);
            lemma_place(before, other);
            if other == name@ || place < before.len() {
                lemma_place_is(after, other, place);
            } else {
                lemma_place_is(after, other, after.len() as int);
            }
        }
    }

    /// Takes a name out.
    pub fn remove(&mut self, name: &str)
        ensures
            forall|other: Seq<char>| #[trigger]
                lookup(final(self).entries@, other) == if other == name@ {
                    None::<T>
                } else {
                    lookup(old(self).entries@, other)
                },
            names_once(old(self).entries@) ==> names_once(final(self).entries@),
    {
        let ghost before = self.entries@;
        let mut at: usize = self.index_of(name);
        while at < self.entries.len()
            invariant
                at == place_of(self.entries@, name@),
                forall|other: Seq<char>|
                    other != name@ ==> #[trigger] lookup(self.entries@, other) == lookup(
                        before,
                        other,
                    ),
                names_once(before) ==> names_once(self.entries@),
            decreases self.entries@.len(),
        {
            let ghost here = self.entries@;
            proof {
                lemma_place(here, name@);
            }
            self.entries.remove(at);
            let ghost there = self.entries@;
            assert(names_once(here) ==> names_once(there)) by {
                assert forall|j: int| 0 <= j < there.len() implies #[trigger] there[j] == here[if j
                    < at {
                    j
                } else {
                    j + 1
                }] by {}
            }
            assert forall|other: Seq<char>| other != name@ implies #[trigger] lookup(there, other)
                == lookup(before, other) by {
                let place = place_of(here, other);
                lemma_place(here, other);
                assert(lookup(here, other) == lookup(before, other));
                if place < at {
                    lemma_place_is(there, other, place);
                } else {
                    assert forall|j: int| 0 <= j < place - 1 implies (#[trigger] there[j]).0@
                        != other by {
                        assert(there[j] == here[if j < at {
                            j
                        } else {
                            j + 1
                        }]);
                    }
                    lemma_place_is(there, other, place - 1);
                }
            }
            at = self.index_of(name);
        }
        proof {
            lemma_place(self.entries@, name@);
        }
    }

    pub fn is_empty(&self) -> (empty: bool)
        ensures
            empty == (self.entries@.len() == 0),
    {
        self.entries.len() == 0
    }
}

} // verus!
