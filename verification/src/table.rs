//! Tables from text to values, each key at most once.
use vstd::prelude::*;

use crate::order::{in_name_order, lists};
use crate::text::same;

verus! {

/// Whether an entry of `entries` has the key `key`.
pub open spec fn has_key<V>(entries: Seq<(String, V)>, key: Seq<char>) -> bool {
    exists|i: int| 0 <= i < entries.len() && (#[trigger] entries[i]).0@ == key
}

/// Whether no two entries have the same key.
pub open spec fn distinct_keys<V>(entries: Seq<(String, V)>) -> bool {
    forall|i: int, j: int|
        0 <= i < j < entries.len() ==> (#[trigger] entries[i]).0@ != (#[trigger] entries[j]).0@
}

/// The table that entries with distinct keys make up.
pub open spec fn table_of<V>(entries: Seq<(String, V)>) -> Map<Seq<char>, V> {
    Map::new(
        |key: Seq<char>| has_key(entries, key),
        |key: Seq<char>|
            entries[choose|i: int|
                0 <= i < entries.len() && (#[trigger] entries[i]).0@ == key].1,
    )
}

/// A table from text to values.
#[derive(Debug)]
pub struct Table<V> {
    entries: Vec<(String, V)>,
}

impl<V> View for Table<V> {
    type V = Map<Seq<char>, V>;

    closed spec fn view(&self) -> Map<Seq<char>, V> {
        table_of(self.entries@)
    }
}

impl<V: DeepView> DeepView for Table<V> {
    type V = Map<Seq<char>, V::V>;

    open spec fn deep_view(&self) -> Map<Seq<char>, V::V> {
        self@.map_values(|value: V| value.deep_view())
    }
}

/// Puts a value under `key`, in the place of what stood there.
pub fn insert_into<V: DeepView>(table: &mut Table<V>, key: &str, value: V)
    ensures
        final(table).deep_view() == old(table).deep_view().insert(key@, value.deep_view()),
{
    let ghost before = table.deep_view();
    table.insert(key, value);
    assert(table.deep_view() =~= before.insert(key@, value.deep_view()));
}

/// An empty table.
pub fn empty_table<V: DeepView>() -> (r: Table<V>)
    ensures
        r.deep_view() == Map::<Seq<char>, V::V>::empty(),
        r.listed().len() == 0,
{
    let r = Table::<V>::new();
    assert(r.deep_view() =~= Map::empty());
    r
}

proof fn entry_is_found<V>(entries: Seq<(String, V)>, i: int)
    requires
        distinct_keys(entries),
        0 <= i < entries.len(),
    ensures
        table_of(entries).contains_key(entries[i].0@),
        table_of(entries)[entries[i].0@] == entries[i].1,
{
    let key = entries[i].0@;
    assert(has_key(entries, key));
    let j = choose|j: int| 0 <= j < entries.len() && (#[trigger] entries[j]).0@ == key;
    assert(j == i);
}

/// A table grows by its last entry.
pub proof fn table_of_push<V>(entries: Seq<(String, V)>)
    requires
        distinct_keys(entries),
        entries.len() > 0,
    ensures
        distinct_keys(entries.drop_last()),
        !table_of(entries.drop_last()).contains_key(entries.last().0@),
        table_of(entries) == table_of(entries.drop_last()).insert(
            entries.last().0@,
            entries.last().1,
        ),
{
    let before = entries.drop_last();
    let n = before.len() as int;
    assert forall|i: int, j: int| 0 <= i < j < before.len() implies (#[trigger] before[i]).0@ != (
    #[trigger] before[j]).0@ by {
        assert(before[i] == entries[i] && before[j] == entries[j]);
    }
    if has_key(before, entries[n].0@) {
        let j = choose|j: int| 0 <= j < before.len() && (#[trigger] before[j]).0@ == entries[n].0@;
        assert(before[j] == entries[j]);
    }
    let more = table_of(before).insert(entries[n].0@, entries[n].1);
    assert forall|k: Seq<char>| #[trigger] table_of(entries).contains_key(k) implies
        more.contains_key(k) && table_of(entries)[k] == more[k] by {
        let j = choose|j: int| 0 <= j < entries.len() && (#[trigger] entries[j]).0@ == k;
        entry_is_found(entries, j);
        if j < n {
            assert(before[j] == entries[j]);
            entry_is_found(before, j);
            assert(has_key(before, k));
        }
    }
    assert forall|k: Seq<char>| more.contains_key(k) implies #[trigger] table_of(
        entries,
    ).contains_key(k) by {
        if k == entries[n].0@ {
            assert(entries[n].0@ == k);
        } else {
            let j = choose|j: int| 0 <= j < before.len() && (#[trigger] before[j]).0@ == k;
            assert(entries[j] == before[j]);
        }
    }
    assert(table_of(entries) =~= more);
}

/// A table has as many keys as it has entries.
pub proof fn table_of_len<V>(entries: Seq<(String, V)>)
    requires
        distinct_keys(entries),
    ensures
        table_of(entries).dom().finite(),
        table_of(entries).dom().len() == entries.len(),
    decreases entries.len(),
{
    if entries.len() == 0 {
        assert(table_of(entries).dom() =~= Set::empty());
    } else {
        table_of_push(entries);
        table_of_len(entries.drop_last());
        assert(table_of(entries).dom() =~= table_of(entries.drop_last()).dom().insert(
            entries.last().0@,
        ));
    }
}

/// The sum of all values.
pub open spec fn total(values: Map<Seq<char>, nat>) -> nat
    decreases values.dom().len(),
    when values.dom().finite()
{
    if values.dom().len() == 0 {
        0
    } else {
        let key = values.dom().choose();
        values[key] + total(values.remove(key))
    }
}

/// Any value may be taken out of the sum.
pub proof fn total_without(values: Map<Seq<char>, nat>, key: Seq<char>)
    requires
        values.dom().finite(),
        values.contains_key(key),
    ensures
        total(values) == values[key] + total(values.remove(key)),
    decreases values.dom().len(),
{
    let first = values.dom().choose();
    assert(values.dom().contains(key));
    assert(values.dom().len() > 0) by {
        if values.dom().len() == 0 {
            assert(values.dom() =~= Set::empty());
        }
    }
    if first != key {
        total_without(values.remove(first), key);
        total_without(values.remove(key), first);
        assert(values.remove(first).remove(key) =~= values.remove(key).remove(first));
    }
}

/// The sum over a table grows by its last entry.
pub proof fn total_of_push<V>(entries: Seq<(String, V)>, count: spec_fn(V) -> nat)
    requires
        distinct_keys(entries),
        entries.len() > 0,
    ensures
        distinct_keys(entries.drop_last()),
        total(table_of(entries).map_values(count)) == total(
            table_of(entries.drop_last()).map_values(count),
        ) + count(entries.last().1),
{
    table_of_push(entries);
    table_of_len(entries);
    let now = table_of(entries).map_values(count);
    let before = table_of(entries.drop_last()).map_values(count);
    let key = entries.last().0@;
    assert(now.dom() =~= table_of(entries).dom());
    total_without(now, key);
    assert(now.remove(key) =~= before);
}

/// An empty table sums up to nothing.
pub proof fn total_of_nothing<V>(entries: Seq<(String, V)>, count: spec_fn(V) -> nat)
    requires
        entries.len() == 0,
    ensures
        total(table_of(entries).map_values(count)) == 0,
{
    assert(table_of(entries).map_values(count).dom() =~= Set::empty());
}

impl<V> Table<V> {
    #[verifier::type_invariant]
    spec fn keys_differ(self) -> bool {
        distinct_keys(self.entries@)
    }

    /// The entries of the table, in the order in which their keys came.
    pub closed spec fn listed(&self) -> Seq<(String, V)> {
        self.entries@
    }

    /// An empty table.
    pub fn new() -> (r: Table<V>)
        ensures
            r@ == Map::<Seq<char>, V>::empty(),
            r.listed() == Seq::<(String, V)>::empty(),
    {
        let r = Table { entries: Vec::new() };
        assert(r@ =~= Map::empty());
        r
    }

    /// How many entries the table has.
    pub fn len(&self) -> (r: usize)
        ensures
            r == self.listed().len(),
            self@.dom().finite(),
            r == self@.dom().len(),
    {
        proof {
            use_type_invariant(self);
            table_of_len(self.entries@);
        }
        self.entries.len()
    }

    /// The entries of the table.
    pub fn entries(&self) -> (r: &Vec<(String, V)>)
        ensures
            r@ == self.listed(),
            distinct_keys(r@),
            self@ == table_of(r@),
    {
        proof {
            use_type_invariant(self);
        }
        &self.entries
    }

    fn place(&self, key: &str) -> (r: Option<usize>)
        ensures
            match r {
                Some(i) => i < self.entries@.len() && self.entries@[i as int].0@ == key@,
                None => !has_key(self.entries@, key@),
            },
    {
        let mut i: usize = 0;
        while i < self.entries.len()
            invariant
                i <= self.entries@.len(),
                forall|k: int| 0 <= k < i ==> (#[trigger] self.entries@[k]).0@ != key@,
            decreases self.entries@.len() - i,
        {
            if same(self.entries[i].0.as_str(), key) {
                return Some(i);
            }
            i = i + 1;
        }
        None
    }

    /// The keys of the table, in order.
    pub fn sorted_keys(&self) -> (r: Vec<String>)
        ensures
            lists(r.deep_view(), self@.dom()),
    {
        proof {
            use_type_invariant(self);
        }
        let mut keys: Vec<String> = Vec::new();
        let mut i: usize = 0;
        while i < self.entries.len()
            invariant
                i <= self.entries@.len(),
                keys@.len() == i,
                forall|k: int| 0 <= k < i ==> (#[trigger] keys@[k])@ == self.entries@[k].0@,
            decreases self.entries@.len() - i,
        {
            keys.push(self.entries[i].0.clone());
            i = i + 1;
        }
        proof {
            let all = keys.deep_view();
            let entries = self.entries@;
            assert forall|key: Seq<char>| #[trigger] all.to_set().contains(key) <==> has_key(
                entries,
                key,
            ) by {
                if all.contains(key) {
                    let k = choose|k: int| 0 <= k < all.len() && all[k] == key;
                    assert(keys@[k]@ == key);
                    assert(entries[k].0@ == key);
                }
                if has_key(entries, key) {
                    let k = choose|k: int|
                        0 <= k < entries.len() && (#[trigger] entries[k]).0@ == key;
                    assert(keys@[k]@ == key);
                    assert(all[k] == key);
                }
            }
            assert(all.to_set() =~= self@.dom());
        }
        in_name_order(&keys)
    }

    /// What the table holds under `key`.
    pub fn get(&self, key: &str) -> (r: Option<&V>)
        ensures
            match r {
                Some(value) => self@.contains_key(key@) && *value == self@[key@],
                None => !self@.contains_key(key@),
            },
    {
        proof {
            use_type_invariant(self);
        }
        match self.place(key) {
            Some(i) => {
                proof {
                    entry_is_found(self.entries@, i as int);
                }
                Some(&self.entries[i].1)
            },
            None => None,
        }
    }

    /// Whether the table holds anything under `key`.
    pub fn has(&self, key: &str) -> (r: bool)
        ensures
            r == self@.contains_key(key@),
    {
        self.get(key).is_some()
    }

    /// Puts a value under `key`, in the place of what stood there.
    pub fn insert(&mut self, key: &str, value: V)
        ensures
            final(self)@ == old(self)@.insert(key@, value),
    {
        proof {
            use_type_invariant(&*self);
        }
        let ghost before = self.entries@;
        match self.place(key) {
            Some(i) => {
                let mut entries: Vec<(String, V)> = Vec::new();
                std::mem::swap(&mut entries, &mut self.entries);
                entries.set(i, (key.to_owned(), value));
                self.entries = entries;
                proof {
                    let after = self.entries@;
                    assert forall|k: Seq<char>| #[trigger]
                        table_of(after).contains_key(k) implies table_of(before).insert(
                        key@,
                        value,
                    ).contains_key(k) && table_of(after)[k] == table_of(before).insert(
                        key@,
                        value,
                    )[k] by {
                        let j = choose|j: int| 0 <= j < after.len() && (#[trigger] after[j]).0@ == k;
                        entry_is_found(after, j);
                        entry_is_found(before, j);
                        assert(before[j].0@ == k);
                    }
                    assert forall|k: Seq<char>|
                        table_of(before).insert(key@, value).contains_key(k) implies #[trigger]
                    table_of(after).contains_key(k) by {
                        if k == key@ {
                            assert(after[i as int].0@ == k);
                        } else {
                            let j = choose|j: int|
                                0 <= j < before.len() && (#[trigger] before[j]).0@ == k;
                            assert(after[j].0@ == k);
                        }
                    }
                    assert(self@ =~= table_of(before).insert(key@, value));
                }
            },
            None => {
                let mut entries: Vec<(String, V)> = Vec::new();
                std::mem::swap(&mut entries, &mut self.entries);
                entries.push((key.to_owned(), value));
                proof {
                    let after = entries@;
                    assert forall|a: int, b: int| 0 <= a < b < after.len() implies (
                    #[trigger] after[a]).0@ != (#[trigger] after[b]).0@ by {
                        assert(after[a] == before[a]);
                        if b < before.len() {
                            assert(after[b] == before[b]);
                        }
                    }
                }
                self.entries = entries;
                proof {
                    let after = self.entries@;
                    let n = before.len() as int;
                    assert forall|k: Seq<char>| #[trigger]
                        table_of(after).contains_key(k) implies table_of(before).insert(
                        key@,
                        value,
                    ).contains_key(k) && table_of(after)[k] == table_of(before).insert(
                        key@,
                        value,
                    )[k] by {
                        let j = choose|j: int| 0 <= j < after.len() && (#[trigger] after[j]).0@ == k;
                        entry_is_found(after, j);
                        if j < n {
                            assert(after[j] == before[j]);
                            entry_is_found(before, j);
                            assert(has_key(before, k));
                        }
                    }
                    assert forall|k: Seq<char>|
                        table_of(before).insert(key@, value).contains_key(k) implies #[trigger]
                    table_of(after).contains_key(k) by {
                        if k == key@ {
                            assert(after[n].0@ == k);
                        } else {
                            let j = choose|j: int|
                                0 <= j < before.len() && (#[trigger] before[j]).0@ == k;
                            assert(after[j].0@ == k);
                        }
                    }
                    assert(self@ =~= table_of(before).insert(key@, value));
                }
            },
        }
    }

    /// Takes out what the table holds under `key`.
    pub fn remove(&mut self, key: &str) -> (r: Option<V>)
        ensures
            final(self)@ == old(self)@.remove(key@),
            match r {
                Some(value) => old(self)@.contains_key(key@) && value == old(self)@[key@],
                None => !old(self)@.contains_key(key@),
            },
    {
        proof {
            use_type_invariant(&*self);
        }
        let ghost before = self.entries@;
        match self.place(key) {
            Some(i) => {
                let mut entries: Vec<(String, V)> = Vec::new();
                std::mem::swap(&mut entries, &mut self.entries);
                let (_, value) = entries.remove(i);
                proof {
                    let after = entries@;
                    assert forall|a: int, b: int| 0 <= a < b < after.len() implies (
                    #[trigger] after[a]).0@ != (#[trigger] after[b]).0@ by {
                        let x = if a < i {
                            a
                        } else {
                            a + 1
                        };
                        let y = if b < i {
                            b
                        } else {
                            b + 1
                        };
                        assert(after[a] == before[x] && after[b] == before[y]);
                    }
                    entry_is_found(before, i as int);
                }
                self.entries = entries;
                proof {
                    let after = self.entries@;
                    assert forall|k: Seq<char>| #[trigger]
                        table_of(after).contains_key(k) implies table_of(before).remove(
                        key@,
                    ).contains_key(k) && table_of(after)[k] == table_of(before).remove(key@)[k] by {
                        let j = choose|j: int| 0 <= j < after.len() && (#[trigger] after[j]).0@ == k;
                        let x = if j < i {
                            j
                        } else {
                            j + 1
                        };
                        assert(after[j] == before[x]);
                        entry_is_found(after, j);
                        entry_is_found(before, x);
                    }
                    assert forall|k: Seq<char>|
                        table_of(before).remove(key@).contains_key(k) implies #[trigger] table_of(
                        after,
                    ).contains_key(k) by {
                        let x = choose|x: int|
                            0 <= x < before.len() && (#[trigger] before[x]).0@ == k;
                        let j = if x < i {
                            x
                        } else {
                            x - 1
                        };
                        assert(x != i);
                        assert(after[j] == before[x]);
                    }
                    assert(self@ =~= table_of(before).remove(key@));
                }
                Some(value)
            },
            None => {
                assert(self@ =~= table_of(before).remove(key@));
                None
            },
        }
    }
}

} // verus!
