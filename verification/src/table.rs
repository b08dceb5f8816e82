//! A small table from keys to records, kept as a list and searched from the
//! front. The groups of one ledger are few, so a scan is all it takes.

use vstd::prelude::*;
use crate::address::Address;

verus! {

/// A key of a table: a plain value that can be told apart from another.
pub trait Key: Copy {
    /// Are the two keys the same key?
    fn same(&self, other: &Self) -> (eq: bool)
        ensures
            eq == (*self == *other),
    ;
}

impl Key for u64 {
    fn same(&self, other: &u64) -> (eq: bool) {
        *self == *other
    }
}

impl Key for Address {
    fn same(&self, other: &Address) -> (eq: bool) {
        *self == *other
    }
}

/// One row of a table.
#[derive(Debug)]
pub struct Row<K, V> {
    pub key: K,
    pub value: V,
}

/// The mapping that a list of rows stands for. Where a key occurs twice the
/// later row counts.
pub open spec fn mapping_of<K, V>(rows: Seq<Row<K, V>>) -> Map<K, V>
    decreases rows.len(),
{
    if rows.len() == 0 {
        Map::empty()
    } else {
        mapping_of(rows.drop_last()).insert(rows.last().key, rows.last().value)
    }
}

/// No key has two rows.
pub open spec fn distinct_keys<K, V>(rows: Seq<Row<K, V>>) -> bool {
    forall|i: int, j: int|
        0 <= i < rows.len() && 0 <= j < rows.len() && i != j ==> rows[i].key != rows[j].key
}

/// Every key of the mapping is the key of some row.
pub proof fn lemma_mapping_dom<K, V>(rows: Seq<Row<K, V>>, key: K)
    ensures
        mapping_of(rows).contains_key(key) <==> exists|i: int|
            0 <= i < rows.len() && (#[trigger] rows[i]).key == key,
    decreases rows.len(),
{
    if rows.len() > 0 {
        let front = rows.drop_last();
        lemma_mapping_dom(front, key);
        if mapping_of(rows).contains_key(key) {
            if rows.last().key == key {
                assert(rows[rows.len() - 1].key == key);
            } else {
                let i = choose|i: int| 0 <= i < front.len() && (#[trigger] front[i]).key == key;
                assert(rows[i].key == key);
            }
        }
        if exists|i: int| 0 <= i < rows.len() && (#[trigger] rows[i]).key == key {
            let i = choose|i: int| 0 <= i < rows.len() && (#[trigger] rows[i]).key == key;
            if i < rows.len() - 1 {
                assert(front[i].key == key);
            }
        }
    }
}

/// Where no key has two rows, the mapping gives each row's value.
pub proof fn lemma_mapping_row<K, V>(rows: Seq<Row<K, V>>, i: int)
    requires
        distinct_keys(rows),
        0 <= i < rows.len(),
    ensures
        mapping_of(rows).contains_key(rows[i].key),
        mapping_of(rows)[rows[i].key] == rows[i].value,
    decreases rows.len(),
{
    let front = rows.drop_last();
    if i < rows.len() - 1 {
        lemma_mapping_row(front, i);
        assert(rows[i].key != rows[rows.len() - 1].key);
    }
}

/// Taking one row out takes its key out of the mapping.
pub proof fn lemma_mapping_remove<K, V>(rows: Seq<Row<K, V>>, i: int)
    requires
        distinct_keys(rows),
        0 <= i < rows.len(),
    ensures
        distinct_keys(rows.remove(i)),
        mapping_of(rows.remove(i)) == mapping_of(rows).remove(rows[i].key),
    decreases rows.len(),
{
    let rest = rows.remove(i);
    let key = rows[i].key;
    assert(distinct_keys(rest)) by {
        assert forall|a: int, b: int|
            0 <= a < rest.len() && 0 <= b < rest.len() && a != b implies rest[a].key
            != rest[b].key by {
            let a0 = if a < i { a } else { a + 1 };
            let b0 = if b < i { b } else { b + 1 };
            assert(rest[a] == rows[a0] && rest[b] == rows[b0]);
        }
    }
    let front = rows.drop_last();
    if i == rows.len() - 1 {
        assert(rest =~= front);
        assert(!mapping_of(front).contains_key(key)) by {
            lemma_mapping_dom(front, key);
            if exists|k: int| 0 <= k < front.len() && (#[trigger] front[k]).key == key {
                let k = choose|k: int| 0 <= k < front.len() && (#[trigger] front[k]).key == key;
                assert(rows[k].key == rows[i].key);
            }
        }
        assert(mapping_of(rows).remove(key) =~= mapping_of(front));
    } else {
        lemma_mapping_remove(front, i);
        assert(rest.drop_last() =~= front.remove(i));
        assert(rest.last() == rows.last());
        assert(rows[rows.len() - 1].key != key);
        assert(mapping_of(rest) =~= mapping_of(rows).remove(key));
    }
}

/// A table from keys to records.
#[derive(Debug)]
pub struct Table<K: Key, V> {
    rows: Vec<Row<K, V>>,
}

impl<K: Key, V> View for Table<K, V> {
    type V = Map<K, V>;

    closed spec fn view(&self) -> Map<K, V> {
        mapping_of(self.rows@)
    }
}

impl<K: Key, V> Table<K, V> {
    #[verifier::type_invariant]
    spec fn distinct(&self) -> bool {
        distinct_keys(self.rows@)
    }

    /// A table without rows.
    pub fn new() -> (table: Table<K, V>)
        ensures
            table@ == Map::<K, V>::empty(),
    {
        Table { rows: Vec::new() }
    }

    /// The table of `rows`; none where a key has two rows.
    pub fn from_rows(rows: Vec<Row<K, V>>) -> (made: Option<Table<K, V>>)
        ensures
            match made {
                Some(table) => distinct_keys(rows@) && table@ == mapping_of(rows@),
                None => !distinct_keys(rows@),
            },
    {
        let mut i: usize = 0;
        while i < rows.len()
            invariant
                i <= rows.len(),
                distinct_keys(rows@.take(i as int)),
            decreases rows.len() - i,
        {
            let mut j: usize = 0;
            while j < i
                invariant
                    j <= i,
                    i < rows.len(),
                    forall|k: int| 0 <= k < j ==> rows@[k].key != rows@[i as int].key,
                decreases i - j,
            {
                if rows[j].key.same(&rows[i].key) {
                    return None;
                }
                j += 1;
            }
            assert(distinct_keys(rows@.take(i + 1))) by {
                let longer = rows@.take(i + 1);
                let shorter = rows@.take(i as int);
                assert forall|a: int, b: int|
                    0 <= a < longer.len() && 0 <= b < longer.len() && a != b implies longer[a].key
                    != longer[b].key by {
                    if a < i && b < i {
                        assert(shorter[a].key != shorter[b].key);
                    }
                }
            }
            i += 1;
        }
        assert(rows@.take(rows.len() as int) =~= rows@);
        Some(Table { rows })
    }

    /// The rows of the table, one for each key.
    pub fn rows(&self) -> (rows: &Vec<Row<K, V>>)
        ensures
            distinct_keys(rows@),
            mapping_of(rows@) == self@,
    {
        proof {
            use_type_invariant(self);
        }
        &self.rows
    }

    /// The record under `key`, if there is one.
    pub fn get(&self, key: &K) -> (found: Option<&V>)
        ensures
            match found {
                Some(value) => self@.contains_key(*key) && *value == self@[*key],
                None => !self@.contains_key(*key),
            },
    {
        proof {
            use_type_invariant(self);
            lemma_mapping_dom(self.rows@, *key);
        }
        match Self::position_in(&self.rows, key) {
            Some(i) => {
                proof {
                    lemma_mapping_row(self.rows@, i as int);
                }
                Some(&self.rows[i].value)
            },
            None => None,
        }
    }

    /// Is there a record under `key`?
    pub fn has(&self, key: &K) -> (found: bool)
        ensures
            found == self@.contains_key(*key),
    {
        self.get(key).is_some()
    }

    /// Puts `value` under `key`, in place of what was there.
    pub fn set(&mut self, key: K, value: V)
        ensures
            final(self)@ == old(self)@.insert(key, value),
    {
        proof {
            use_type_invariant(&*self);
            lemma_mapping_dom(self.rows@, key);
        }
        let mut rows: Vec<Row<K, V>> = Vec::new();
        core::mem::swap(&mut rows, &mut self.rows);
        match Self::position_in(&rows, &key) {
            Some(i) => {
                proof {
                    lemma_mapping_remove(rows@, i as int);
                }
                rows.remove(i);
            },
            None => {
                proof {
                    assert(old(self)@.remove(key) =~= old(self)@);
                }
            },
        }
        let ghost before = rows@;
        proof {
            assert(mapping_of(before) == old(self)@.remove(key));
            lemma_mapping_dom(before, key);
        }
        rows.push(Row { key, value });
        proof {
            assert(rows@.drop_last() =~= before);
            assert(old(self)@.remove(key).insert(key, value) =~= old(self)@.insert(key, value));
        }
        self.rows = rows;
    }

    fn position_in(rows: &Vec<Row<K, V>>, key: &K) -> (at: Option<usize>)
        ensures
            match at {
                Some(i) => i < rows.len() && rows@[i as int].key == *key,
                None => forall|i: int| 0 <= i < rows.len() ==> rows@[i].key != *key,
            },
    {
        let mut i: usize = 0;
        while i < rows.len()
            invariant
                i <= rows.len(),
                forall|j: int| 0 <= j < i ==> rows@[j].key != *key,
            decreases rows.len() - i,
        {
            if rows[i].key.same(key) {
                return Some(i);
            }
            i += 1;
        }
        None
    }

    /// Takes the record under `key` out of the table.
    pub fn remove(&mut self, key: &K)
        ensures
            final(self)@ == old(self)@.remove(*key),
    {
        proof {
            use_type_invariant(&*self);
            lemma_mapping_dom(self.rows@, *key);
        }
        let mut rows: Vec<Row<K, V>> = Vec::new();
        core::mem::swap(&mut rows, &mut self.rows);
        match Self::position_in(&rows, key) {
            Some(i) => {
                proof {
                    lemma_mapping_remove(rows@, i as int);
                }
                rows.remove(i);
            },
            None => {
                proof {
                    assert(old(self)@.remove(*key) =~= old(self)@);
                }
            },
        }
        self.rows = rows;
    }
}

} // verus!
