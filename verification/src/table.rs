//! A small map from texts to values, kept in insertion order.
use vstd::prelude::*;
use crate::text::{owned, text_eq};

verus! {

/// One entry of a [`Table`].
pub struct TableEntry<V> {
    pub key: String,
    pub value: V,
}

/// A map from texts to values.
pub struct Table<V> {
    pub entries: Vec<TableEntry<V>>,
}

/// The map that a list of entries stands for: a later entry wins.
pub open spec fn table_of<V>(entries: Seq<TableEntry<V>>) -> Map<Seq<char>, V>
    decreases entries.len(),
{
    if entries.len() == 0 {
        Map::empty()
    } else {
        table_of(entries.drop_last()).insert(entries.last().key@, entries.last().value)
    }
}

impl<V> View for Table<V> {
    type V = Map<Seq<char>, V>;

    open spec fn view(&self) -> Map<Seq<char>, V> {
        table_of(self.entries@)
    }
}

/// What a key is mapped to is decided by the last entry with that key.
proof fn lemma_lookup<V>(entries: Seq<TableEntry<V>>, key: Seq<char>, i: int)
    requires
        -1 <= i < entries.len(),
        i >= 0 ==> entries[i].key@ == key,
        forall|k: int| i < k < entries.len() ==> entries[k].key@ != key,
    ensures
        i >= 0 ==> table_of(entries).contains_key(key) && table_of(entries)[key]
            == entries[i].value,
        i < 0 ==> !table_of(entries).contains_key(key),
    decreases entries.len(),
{
    if entries.len() > 0 && i < entries.len() - 1 {
        assert(entries.last().key@ != key);
        assert forall|k: int| i < k < entries.drop_last().len() implies entries.drop_last()[k].key@
            != key by {
            assert(entries[k].key@ != key);
        }
        lemma_lookup(entries.drop_last(), key, i);
    }
}

/// Replacing the value of the last entry with a key is an insertion.
proof fn lemma_replace<V>(
    entries: Seq<TableEntry<V>>,
    changed: Seq<TableEntry<V>>,
    i: int,
)
    requires
        0 <= i < entries.len(),
        changed.len() == entries.len(),
        changed[i].key@ == entries[i].key@,
        forall|k: int| 0 <= k < entries.len() && k != i ==> changed[k] == entries[k],
        forall|k: int| i < k < entries.len() ==> entries[k].key@ != entries[i].key@,
    ensures
        table_of(changed) == table_of(entries).insert(entries[i].key@, changed[i].value),
    decreases entries.len(),
{
    let key = entries[i].key@;
    if i == entries.len() - 1 {
        assert(changed.drop_last() =~= entries.drop_last());
        assert(table_of(changed) =~= table_of(entries).insert(key, changed[i].value));
    } else {
        let n = entries.len() - 1;
        assert(changed[n] == entries[n]);
        assert(entries[n].key@ != key);
        assert forall|k: int| i < k < entries.drop_last().len() implies entries.drop_last()[k].key@
            != key by {
            assert(entries[k].key@ != key);
        }
        lemma_replace(entries.drop_last(), changed.drop_last(), i);
        assert(table_of(changed) =~= table_of(entries).insert(key, changed[i].value));
    }
}

impl<V: Copy> Table<V> {
    /// An empty table.
    pub fn new() -> (r: Self)
        ensures
            r@ == Map::<Seq<char>, V>::empty(),
    {
        let r = Table { entries: Vec::new() };
        assert(r@ =~= Map::<Seq<char>, V>::empty());
        r
    }

    /// The value of a key.
    pub fn get(&self, key: &str) -> (r: Option<V>)
        ensures
            r == if self@.contains_key(key@) { Some(self@[key@]) } else { None },
    {
        let mut i: usize = self.entries.len();
        while i > 0
            invariant
                i <= self.entries.len(),
                forall|k: int| i <= k < self.entries.len() ==> self.entries@[k].key@ != key@,
            decreases i,
        {
            if text_eq(self.entries[i - 1].key.as_str(), key) {
                proof {
                    lemma_lookup(self.entries@, key@, i - 1);
                }
                return Some(self.entries[i - 1].value);
            }
            i -= 1;
        }
        proof {
            lemma_lookup(self.entries@, key@, -1);
        }
        None
    }

    /// Maps a key to a value, replacing what it was mapped to.
    pub fn insert(&mut self, key: &str, value: V)
        ensures
            final(self)@ == old(self)@.insert(key@, value),
    {
        let ghost before = self.entries@;
        let mut i: usize = self.entries.len();
        while i > 0
            invariant
                i <= self.entries.len(),
                self.entries@ == before,
                before == old(self).entries@,
                forall|k: int| i <= k < self.entries.len() ==> self.entries@[k].key@ != key@,
            decreases i,
        {
            if text_eq(self.entries[i - 1].key.as_str(), key) {
                let entry = TableEntry { key: owned(key), value };
                self.entries.set(i - 1, entry);
                proof {
                    lemma_replace(before, self.entries@, i - 1);
                }
                return ;
            }
            i -= 1;
        }
        self.entries.push(TableEntry { key: owned(key), value });
        assert(self.entries@.drop_last() =~= before);
    }
}

} // verus!
