//! The accumulator: for each activity label, the seconds credited to it.
//!
//! Labels are case-sensitive text. An entry is made when a label is first
//! credited and grows with every later credit; entries keep the order in
//! which their labels first came.

use vstd::prelude::*;

verus! {

/// The entries of an accumulator as plain values: each label with its total.
pub type EntrySeq = Seq<(Seq<char>, nat)>;

/// No label heads two entries.
pub open spec fn distinct_labels(entries: EntrySeq) -> bool {
    forall|i: int, j: int|
        0 <= i < entries.len() && 0 <= j < entries.len() && i != j ==> entries[i].0
            != entries[j].0
}

/// Whether some entry carries the label.
pub open spec fn has_label(entries: EntrySeq, label: Seq<char>) -> bool {
    exists|i: int| 0 <= i < entries.len() && #[trigger] entries[i].0 == label
}

/// The place of the entry that carries the label, where there is one.
pub open spec fn index_of_label(entries: EntrySeq, label: Seq<char>) -> int {
    choose|i: int| 0 <= i < entries.len() && #[trigger] entries[i].0 == label
}

/// The seconds credited to a label; zero where it has no entry.
pub open spec fn total_of(entries: EntrySeq, label: Seq<char>) -> nat {
    if has_label(entries, label) {
        entries[index_of_label(entries, label)].1
    } else {
        0
    }
}

/// The entries after crediting `seconds` to `label`: its entry grows, or a
/// new entry is added behind the others.
pub open spec fn credited(entries: EntrySeq, label: Seq<char>, seconds: nat) -> EntrySeq {
    if has_label(entries, label) {
        let i = index_of_label(entries, label);
        entries.update(i, (label, entries[i].1 + seconds))
    } else {
        entries.push((label, seconds))
    }
}

/// In entries with distinct labels, the entry at a place is the entry of its
/// label.
pub proof fn lemma_total_at(entries: EntrySeq, i: int)
    requires
        distinct_labels(entries),
        0 <= i < entries.len(),
    ensures
        has_label(entries, entries[i].0),
        index_of_label(entries, entries[i].0) == i,
        total_of(entries, entries[i].0) == entries[i].1,
{
    assert(entries[i].0 == entries[i].0);
}

/// Crediting keeps labels distinct, adds to the credited label and leaves
/// every other label as it was.
pub proof fn lemma_credited(entries: EntrySeq, label: Seq<char>, seconds: nat)
    requires
        distinct_labels(entries),
    ensures
        distinct_labels(credited(entries, label, seconds)),
        has_label(credited(entries, label, seconds), label),
        total_of(credited(entries, label, seconds), label) == total_of(entries, label) + seconds,
        forall|other: Seq<char>|
            other != label ==> has_label(credited(entries, label, seconds), other) == has_label(
                entries,
                other,
            ) && total_of(credited(entries, label, seconds), other) == total_of(entries, other),
{
    let after = credited(entries, label, seconds);
    if has_label(entries, label) {
        let i = index_of_label(entries, label);
        assert(after[i].0 == label);
        lemma_total_at(after, i);
        assert forall|other: Seq<char>| other != label implies has_label(after, other)
            == has_label(entries, other) && total_of(after, other) == total_of(
            entries,
            other,
        ) by {
            if has_label(entries, other) {
                let j = index_of_label(entries, other);
                assert(after[j] == entries[j]);
                lemma_total_at(entries, j);
                lemma_total_at(after, j);
            }
            if has_label(after, other) {
                let j = index_of_label(after, other);
                assert(entries[j].0 == other);
            }
        }
    } else {
        let n = entries.len() as int;
        assert(after[n].0 == label);
        assert forall|a: int, b: int| 0 <= a < after.len() && 0 <= b < after.len() && a
            != b implies after[a].0 != after[b].0 by {
            if a < n && b < n {
                assert(after[a] == entries[a] && after[b] == entries[b]);
            } else if a < n {
                assert(entries[a].0 == after[a].0);
            } else {
                assert(entries[b].0 == after[b].0);
            }
        }
        lemma_total_at(after, n);
        assert forall|other: Seq<char>| other != label implies has_label(after, other)
            == has_label(entries, other) && total_of(after, other) == total_of(
            entries,
            other,
        ) by {
            if has_label(entries, other) {
                let j = index_of_label(entries, other);
                assert(after[j] == entries[j]);
                lemma_total_at(entries, j);
                lemma_total_at(after, j);
            }
            if has_label(after, other) {
                let j = index_of_label(after, other);
                assert(entries[j].0 == other);
            }
        }
    }
}

/// Seconds per activity label, in the order in which the labels first came.
#[derive(Debug)]
pub struct Durations {
    entries: Vec<(String, u32)>,
}

impl View for Durations {
    type V = Map<Seq<char>, nat>;

    /// The accumulator as a mapping from each label that has an entry to its
    /// total.
    open spec fn view(&self) -> Map<Seq<char>, nat> {
        Map::new(
            |label: Seq<char>| has_label(self.entries(), label),
            |label: Seq<char>| total_of(self.entries(), label),
        )
    }
}

impl Durations {
    /// The entries as plain values, in order.
    pub closed spec fn entries(self) -> EntrySeq {
        self.entries@.map_values(|e: (String, u32)| (e.0@, e.1 as nat))
    }

    /// Labels are distinct, and every total fits the machine word it is kept in.
    #[verifier::type_invariant]
    pub open spec fn wf(self) -> bool {
        &&& distinct_labels(self.entries())
        &&& forall|i: int| 0 <= i < self.entries().len() ==> self.entries()[i].1 <= u32::MAX
    }

    /// An accumulator without entries.
    pub fn new() -> (durations: Durations)
        ensures
            durations.wf(),
            durations.entries() == Seq::<(Seq<char>, nat)>::empty(),
    {
        let durations = Durations { entries: Vec::new() };
        assert(durations.entries() =~= Seq::<(Seq<char>, nat)>::empty());
        durations
    }

    /// The number of entries.
    pub fn len(&self) -> (n: usize)
        ensures
            n == self.entries().len(),
    {
        self.entries.len()
    }

    pub fn is_empty(&self) -> (empty: bool)
        ensures
            empty == (self.entries().len() == 0),
    {
        self.entries.len() == 0
    }

    /// The place of the label's entry, or the number of entries where it has
    /// none.
    fn find(&self, label: &String) -> (place: usize)
        ensures
            place <= self.entries().len(),
            place < self.entries().len() ==> self.entries()[place as int].0 == label@,
            place == self.entries().len() ==> !has_label(self.entries(), label@),
    {
        let mut i: usize = 0;
        while i < self.entries.len()
            invariant
                i <= self.entries.len(),
                forall|j: int| 0 <= j < i ==> self.entries()[j].0 != label@,
            decreases self.entries.len() - i,
        {
            if self.entries[i].0 == *label {
                return i;
            }
            i += 1;
        }
        i
    }

    /// The seconds credited to a label, or `None` where it has no entry.
    pub fn get(&self, label: &str) -> (seconds: Option<u32>)
        ensures
            has_label(self.entries(), label@) ==> seconds == Some(
                total_of(self.entries(), label@) as u32,
            ),
            !has_label(self.entries(), label@) ==> seconds is None,
    {
        proof {
            use_type_invariant(self);
        }
        let owned = label.to_owned();
        let place = self.find(&owned);
        if place < self.entries.len() {
            proof {
                lemma_total_at(self.entries(), place as int);
            }
            Some(self.entries[place].1)
        } else {
            None
        }
    }

    /// The entry at a place, or `None` past the last one.
    pub fn entry(&self, place: usize) -> (entry: Option<(String, u32)>)
        ensures
            place >= self.entries().len() ==> entry is None,
            place < self.entries().len() ==> (entry matches Some(e) && (e.0@, e.1 as nat)
                == self.entries()[place as int]),
    {
        if place < self.entries.len() {
            Some((self.entries[place].0.clone(), self.entries[place].1))
        } else {
            None
        }
    }

    /// The label of the entry at a place.
    pub fn label_at(&self, place: usize) -> (label: &str)
        requires
            place < self.entries().len(),
        ensures
            label@ == self.entries()[place as int].0,
    {
        self.entries[place].0.as_str()
    }

    /// The seconds of the entry at a place.
    pub fn seconds_at(&self, place: usize) -> (seconds: u32)
        requires
            place < self.entries().len(),
        ensures
            seconds == self.entries()[place as int].1,
    {
        self.entries[place].1
    }

    /// Credits `seconds` to `label`.
    pub fn record(&mut self, label: &str, seconds: u32)
        requires
            total_of(old(self).entries(), label@) + seconds <= u32::MAX,
        ensures
            final(self).wf(),
            final(self).entries() == credited(old(self).entries(), label@, seconds as nat),
    {
        proof {
            use_type_invariant(&*self);
            lemma_credited(self.entries(), label@, seconds as nat);
        }
        let owned = label.to_owned();
        let place = self.find(&owned);
        let mut taken = Durations::new();
        core::mem::swap(self, &mut taken);
        let mut entries = taken.entries;
        if place < entries.len() {
            proof {
                lemma_total_at(old(self).entries(), place as int);
            }
            let sum = entries[place].1 + seconds;
            entries.set(place, (owned, sum));
        } else {
            entries.push((owned, seconds));
        }
        let ghost after = Durations { entries };
        assert(after.entries() =~= credited(old(self).entries(), label@, seconds as nat));
        *self = Durations { entries };
    }
}

} // verus!
