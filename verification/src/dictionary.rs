//! The dictionary: which definition each word name stands for.

use vstd::prelude::*;
use crate::model::{Definition, DefinitionView, NativeOp};

verus! {

/// One name with its definition.
pub struct Entry {
    pub name: String,
    pub def: Definition,
}

/// A mapping from names to definitions. A name has one definition at a
/// time: defining it again replaces the earlier one.
pub struct Dictionary {
    entries: Vec<Entry>,
}

/// Whether no two entries bear the same name.
pub open spec fn distinct_names(entries: Seq<Entry>) -> bool {
    forall|i: int, j: int|
        0 <= i < j < entries.len() ==> (#[trigger] entries[i]).name@ != (
        #[trigger] entries[j]).name@
}

/// The mapping that a list of entries stands for: of two entries with one
/// name, the later counts.
pub open spec fn entries_map(entries: Seq<Entry>) -> Map<Seq<char>, DefinitionView>
    decreases entries.len(),
{
    if entries.len() == 0 {
        Map::empty()
    } else {
        entries_map(entries.drop_last()).insert(entries.last().name@, entries.last().def@)
    }
}

/// Entries after the first `i` that do not bear the name `key` do not
/// change what `key` stands for.
proof fn lemma_tail_without(entries: Seq<Entry>, i: int, key: Seq<char>)
    requires
        0 <= i <= entries.len(),
        forall|j: int| i <= j < entries.len() ==> entries[j].name@ != key,
    ensures
        entries_map(entries).contains_key(key) == entries_map(entries.take(i)).contains_key(key),
        entries_map(entries).contains_key(key) ==> entries_map(entries)[key] == entries_map(
            entries.take(i),
        )[key],
    decreases entries.len(),
{
    if i == entries.len() {
        assert(entries.take(i) =~= entries);
    } else {
        let front = entries.drop_last();
        assert(front.take(i) =~= entries.take(i));
        lemma_tail_without(front, i, key);
    }
}

/// Replacing the last entry that bears a name is defining that name anew.
proof fn lemma_replace(entries: Seq<Entry>, i: int, entry: Entry)
    requires
        0 <= i < entries.len(),
        entries[i].name@ == entry.name@,
        forall|j: int| i < j < entries.len() ==> entries[j].name@ != entry.name@,
    ensures
        entries_map(entries.update(i, entry)) == entries_map(entries).insert(
            entry.name@,
            entry.def@,
        ),
    decreases entries.len(),
{
    let front = entries.drop_last();
    let updated = entries.update(i, entry);
    if i == entries.len() - 1 {
        assert(updated.drop_last() =~= front);
    } else {
        assert(updated.drop_last() =~= front.update(i, entry));
        lemma_replace(front, i, entry);
    }
}

impl View for Dictionary {
    type V = Map<Seq<char>, DefinitionView>;

    closed spec fn view(&self) -> Map<Seq<char>, DefinitionView> {
        entries_map(self.entries@)
    }
}

impl Dictionary {
    /// Whether the dictionary holds each name once. A new dictionary does,
    /// and every operation keeps it so.
    pub closed spec fn well_formed(&self) -> bool {
        distinct_names(self.entries@)
    }

    /// A dictionary without entries.
    pub fn new() -> (dict: Dictionary)
        ensures
            dict@ == Map::<Seq<char>, DefinitionView>::empty(),
            dict.well_formed(),
    {
        Dictionary { entries: Vec::new() }
    }

    /// The position of the last entry named `name`, if there is one.
    fn position(&self, name: &String) -> (at: Option<usize>)
        ensures
            match at {
                Some(i) => {
                    &&& i < self.entries@.len()
                    &&& self.entries@[i as int].name@ == name@
                    &&& forall|j: int|
                        i < j < self.entries@.len() ==> self.entries@[j].name@ != name@
                },
                None => forall|j: int|
                    0 <= j < self.entries@.len() ==> self.entries@[j].name@ != name@,
            },
    {
        let mut i: usize = self.entries.len();
        while i > 0
            invariant
                i <= self.entries@.len(),
                forall|j: int| i <= j < self.entries@.len() ==> self.entries@[j].name@ != name@,
            decreases i,
        {
            i -= 1;
            if self.entries[i].name == *name {
                return Some(i);
            }
        }
        None
    }

    /// A copy of the definition that `name` stands for, if it stands for one.
    pub fn get(&self, name: &String) -> (found: Option<Definition>)
        ensures
            match found {
                Some(def) => self@.contains_key(name@) && def@ == self@[name@],
                None => !self@.contains_key(name@),
            },
    {
        match self.position(name) {
            Some(i) => {
                proof {
                    lemma_tail_without(self.entries@, i + 1, name@);
                }
                Some(self.entries[i].def.clone())
            },
            None => {
                proof {
                    lemma_tail_without(self.entries@, 0, name@);
                }
                None
            },
        }
    }

    /// Lets `name` stand for `def`, whatever it stood for before.
    pub fn insert(&mut self, name: String, def: Definition)
        ensures
            final(self)@ == old(self)@.insert(name@, def@),
            old(self).well_formed() ==> final(self).well_formed(),
    {
        let entry = Entry { name, def };
        match self.position(&entry.name) {
            Some(i) => {
                proof {
                    lemma_replace(self.entries@, i as int, entry);
                }
                self.entries.set(i, entry);
            },
            None => {
                let ghost before = self.entries@;
                self.entries.push(entry);
                assert(self.entries@.drop_last() =~= before);
            },
        }
    }

    /// Lets `name` stand for the built-in word `op`.
    pub fn insert_native(&mut self, name: &str, op: NativeOp)
        ensures
            final(self)@ == old(self)@.insert(name@, DefinitionView::Native(op)),
            old(self).well_formed() ==> final(self).well_formed(),
    {
        self.insert(name.to_owned(), Definition::Native(op));
    }
}

} // verus!
