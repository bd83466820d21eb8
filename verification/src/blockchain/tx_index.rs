//! The index from content hash to transaction that a chain keeps of what was
//! submitted to it.

use crate::encoding::same_text;
use crate::wallet::transaction::{Transaction, TransactionView};
use vstd::prelude::*;
use vstd::string::*;

verus! {

/// A map from content hash to transaction, held as a list of entries. Of two
/// entries with the same hash the earlier one counts; `insert` never makes
/// such a pair.
#[derive(Debug)]
pub struct TransactionIndex {
    pub entries: Vec<(String, Transaction)>,
}

/// The map that a list of entries stands for.
pub open spec fn entries_map(entries: Seq<(String, Transaction)>) -> Map<
    Seq<char>,
    TransactionView,
>
    decreases entries.len(),
{
    if entries.len() == 0 {
        Map::empty()
    } else {
        entries_map(entries.drop_first()).insert(entries.first().0@, entries.first().1@)
    }
}

/// Whether some entry has the key `key`.
pub open spec fn has_key(entries: Seq<(String, Transaction)>, key: Seq<char>) -> bool {
    exists|i: int| 0 <= i < entries.len() && (#[trigger] entries[i]).0@ == key
}

/// A key is in the map exactly if some entry has it.
pub proof fn lemma_entries_map_domain(entries: Seq<(String, Transaction)>, key: Seq<char>)
    ensures
        entries_map(entries).dom().contains(key) <==> has_key(entries, key),
    decreases entries.len(),
{
    if entries.len() > 0 {
        let rest = entries.drop_first();
        lemma_entries_map_domain(rest, key);
        if has_key(rest, key) {
            let i = choose|i: int| 0 <= i < rest.len() && (#[trigger] rest[i]).0@ == key;
            assert(entries[i + 1].0@ == key);
        }
        if has_key(entries, key) && entries.first().0@ != key {
            let i = choose|i: int| 0 <= i < entries.len() && (#[trigger] entries[i]).0@ == key;
            assert(rest[i - 1].0@ == key);
        }
    }
}

/// The map sends a key to the transaction of the first entry that has it.
pub proof fn lemma_entries_map_first_match(
    entries: Seq<(String, Transaction)>,
    key: Seq<char>,
    at: int,
)
    requires
        0 <= at < entries.len(),
        entries[at].0@ == key,
        forall|i: int| 0 <= i < at ==> (#[trigger] entries[i]).0@ != key,
    ensures
        entries_map(entries).dom().contains(key),
        entries_map(entries)[key] == entries[at].1@,
    decreases entries.len(),
{
    if at > 0 {
        let rest = entries.drop_first();
        assert forall|i: int| 0 <= i < at - 1 implies (#[trigger] rest[i]).0@ != key by {
            assert(entries[i + 1].0@ != key);
        }
        assert(entries[0].0@ != key);
        lemma_entries_map_first_match(rest, key, at - 1);
    }
}

/// Replacing the transaction of the first entry that has a key is the same
/// as inserting under that key.
pub proof fn lemma_entries_map_update(
    entries: Seq<(String, Transaction)>,
    at: int,
    entry: (String, Transaction),
)
    requires
        0 <= at < entries.len(),
        entries[at].0@ == entry.0@,
        forall|i: int| 0 <= i < at ==> (#[trigger] entries[i]).0@ != entry.0@,
    ensures
        entries_map(entries.update(at, entry)) == entries_map(entries).insert(entry.0@, entry.1@),
    decreases entries.len(),
{
    let updated = entries.update(at, entry);
    let rest = entries.drop_first();
    if at == 0 {
        assert(updated.drop_first() =~= rest);
        assert(entries_map(updated) =~= entries_map(entries).insert(entry.0@, entry.1@));
    } else {
        assert forall|i: int| 0 <= i < at - 1 implies (#[trigger] rest[i]).0@ != entry.0@ by {
            assert(entries[i + 1].0@ != entry.0@);
        }
        assert(entries[0].0@ != entry.0@);
        lemma_entries_map_update(rest, at - 1, entry);
        assert(updated.drop_first() =~= rest.update(at - 1, entry));
        assert(entries_map(updated) =~= entries_map(entries).insert(entry.0@, entry.1@));
    }
}

/// Adding an entry whose key no entry has is the same as inserting under
/// that key.
pub proof fn lemma_entries_map_push(
    entries: Seq<(String, Transaction)>,
    entry: (String, Transaction),
)
    requires
        !has_key(entries, entry.0@),
    ensures
        entries_map(entries.push(entry)) == entries_map(entries).insert(entry.0@, entry.1@),
    decreases entries.len(),
{
    let extended = entries.push(entry);
    if entries.len() == 0 {
        assert(extended.drop_first() =~= entries);
    } else {
        let rest = entries.drop_first();
        assert(entries[0].0@ != entry.0@);
        assert(!has_key(rest, entry.0@)) by {
            if has_key(rest, entry.0@) {
                let i = choose|i: int| 0 <= i < rest.len() && (#[trigger] rest[i]).0@ == entry.0@;
                assert(entries[i + 1].0@ == entry.0@);
            }
        }
        lemma_entries_map_push(rest, entry);
        assert(extended.drop_first() =~= rest.push(entry));
        assert(entries_map(extended) =~= entries_map(entries).insert(entry.0@, entry.1@));
    }
}

/// Lists whose entries agree in what they stand for give the same map.
pub proof fn lemma_entries_map_same(
    a: Seq<(String, Transaction)>,
    b: Seq<(String, Transaction)>,
)
    requires
        a.len() == b.len(),
        forall|k: int|
            0 <= k < a.len() ==> (#[trigger] a[k]).0@ == b[k].0@ && a[k].1@ == b[k].1@,
    ensures
        entries_map(a) == entries_map(b),
    decreases a.len(),
{
    if a.len() > 0 {
        assert forall|k: int| 0 <= k < a.drop_first().len() implies (#[trigger] a.drop_first()[k]).0@
            == b.drop_first()[k].0@ && a.drop_first()[k].1@ == b.drop_first()[k].1@ by {
            assert(a[k + 1].0@ == b[k + 1].0@);
        }
        assert(a[0].0@ == b[0].0@);
        lemma_entries_map_same(a.drop_first(), b.drop_first());
    }
}

impl View for TransactionIndex {
    type V = Map<Seq<char>, TransactionView>;

    open spec fn view(&self) -> Map<Seq<char>, TransactionView> {
        entries_map(self.entries@)
    }
}

impl Clone for TransactionIndex {
    fn clone(&self) -> (copy: Self)
        ensures
            copy@ == self@,
            copy.entries.len() == self.entries.len(),
    {
        let mut entries: Vec<(String, Transaction)> = Vec::new();
        let mut i: usize = 0;
        while i < self.entries.len()
            invariant
                i <= self.entries.len(),
                entries.len() == i,
                forall|k: int|
                    0 <= k < i ==> (#[trigger] entries[k]).0@ == self.entries[k].0@ && entries[k].1@
                        == self.entries[k].1@,
            decreases self.entries.len() - i,
        {
            entries.push((self.entries[i].0.clone(), self.entries[i].1.clone()));
            i += 1;
        }
        proof {
            lemma_entries_map_same(entries@, self.entries@);
        }
        TransactionIndex { entries }
    }
}

impl TransactionIndex {
    /// An index with nothing in it.
    pub fn new() -> (index: TransactionIndex)
        ensures
            index@ == Map::<Seq<char>, TransactionView>::empty(),
            index.entries.len() == 0,
    {
        TransactionIndex { entries: Vec::new() }
    }

    /// The number of entries.
    pub fn len(&self) -> (n: usize)
        ensures
            n == self.entries.len(),
    {
        self.entries.len()
    }

    /// The position of the first entry with key `key`, if there is one.
    fn position(&self, key: &str) -> (found: Option<usize>)
        ensures
            match found {
                Some(at) => {
                    &&& at < self.entries.len()
                    &&& self.entries[at as int].0@ == key@
                    &&& forall|i: int| 0 <= i < at ==> (#[trigger] self.entries[i]).0@ != key@
                },
                None => !has_key(self.entries@, key@),
            },
    {
        let mut i: usize = 0;
        while i < self.entries.len()
            invariant
                i <= self.entries.len(),
                forall|k: int| 0 <= k < i ==> (#[trigger] self.entries[k]).0@ != key@,
            decreases self.entries.len() - i,
        {
            if same_text(self.entries[i].0.as_str(), key) {
                return Some(i);
            }
            i += 1;
        }
        None
    }

    /// Files `transaction` under `key`. An entry that already has the key
    /// gets the new transaction; otherwise the index grows by one entry.
    pub fn insert(&mut self, key: String, transaction: Transaction)
        ensures
            final(self)@ == old(self)@.insert(key@, transaction@),
            old(self)@.dom().contains(key@) ==> final(self).entries.len() == old(
                self,
            ).entries.len(),
            !old(self)@.dom().contains(key@) ==> final(self).entries.len() == old(
                self,
            ).entries.len() + 1,
    {
        proof {
            lemma_entries_map_domain(self.entries@, key@);
        }
        match self.position(key.as_str()) {
            Some(at) => {
                proof {
                    lemma_entries_map_update(self.entries@, at as int, (key, transaction));
                }
                self.entries.set(at, (key, transaction));
            },
            None => {
                proof {
                    lemma_entries_map_push(self.entries@, (key, transaction));
                }
                self.entries.push((key, transaction));
            },
        }
    }

    /// The transaction filed under `key`, if there is one.
    pub fn get(&self, key: &str) -> (found: Option<&Transaction>)
        ensures
            match found {
                Some(transaction) => self@.dom().contains(key@) && transaction@ == self@[key@],
                None => !self@.dom().contains(key@),
            },
    {
        proof {
            lemma_entries_map_domain(self.entries@, key@);
        }
        match self.position(key) {
            Some(at) => {
                proof {
                    lemma_entries_map_first_match(self.entries@, key@, at as int);
                }
                Some(&self.entries[at].1)
            },
            None => None,
        }
    }
}

} // verus!
