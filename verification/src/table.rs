//! The bounded key-value table shared by the classifier and the executor.

use crate::addr::BeIpv4Addr;
use vstd::prelude::*;

verus! {

/// The number of entries that a table can hold.
pub const CAPACITY: usize = 100;

/// A `set` would have created an entry in a table that is already full.
#[derive(Clone, Copy, Debug, PartialEq, Eq, Structural)]
pub struct CapacityExceeded;

/// A table from addresses to values with room for [`CAPACITY`] entries and a
/// value that stands for every address without an entry.
///
/// The table is a map (its view) together with the order in which its keys
/// were first stored; entries are never removed.
pub struct Table<V> {
    entries: Vec<(BeIpv4Addr, V)>,
    default: V,
}

impl<V> View for Table<V> {
    type V = Map<BeIpv4Addr, V>;

    closed spec fn view(&self) -> Map<BeIpv4Addr, V> {
        Map::new(
            |key: BeIpv4Addr| self.order().contains(key),
            |key: BeIpv4Addr| self.entries@[self.order().index_of(key)].1,
        )
    }
}

impl<V> Table<V> {
    /// The keys that have an entry, in the order in which they were first stored.
    pub closed spec fn order(&self) -> Seq<BeIpv4Addr> {
        self.entries@.map_values(|entry: (BeIpv4Addr, V)| entry.0)
    }

    /// The value read for a key that has no entry.
    pub closed spec fn default_value(&self) -> V {
        self.default
    }

    /// No key is stored twice and the table is within its capacity.
    #[verifier::type_invariant]
    pub open spec fn well_formed(&self) -> bool {
        &&& self.order().no_duplicates()
        &&& self.order().len() <= CAPACITY
    }

    /// What `get` reads for `key`.
    pub open spec fn spec_get(&self, key: BeIpv4Addr) -> V {
        if self@.contains_key(key) {
            self@[key]
        } else {
            self.default_value()
        }
    }

    /// Whether a `set` for `key` can be carried out: the key has an entry, or
    /// there is room for a new one.
    pub open spec fn admits(&self, key: BeIpv4Addr) -> bool {
        self@.contains_key(key) || self.order().len() < CAPACITY
    }

    /// The order of the keys after a successful `set` for `key`.
    pub open spec fn order_with(&self, key: BeIpv4Addr) -> Seq<BeIpv4Addr> {
        if self@.contains_key(key) {
            self.order()
        } else {
            self.order().push(key)
        }
    }

    /// How `set(key, value)` changes a table: `after` reads `value` for
    /// `key`, keeps every other entry and lists a new key last. A full table
    /// without an entry for `key` stays as it is.
    pub open spec fn stored(&self, key: BeIpv4Addr, value: V, after: Table<V>) -> bool {
        if self.admits(key) {
            &&& after@ == self@.insert(key, value)
            &&& after.order() == self.order_with(key)
            &&& after.default_value() == self.default_value()
        } else {
            after == *self
        }
    }

    /// The entries in the order in which their keys were first stored.
    pub open spec fn listing(&self) -> Seq<(BeIpv4Addr, V)> {
        Seq::new(self.order().len(), |i: int| (self.order()[i], self@[self.order()[i]]))
    }

    /// The keys of the map are the keys in `order`, each once, and the entry
    /// at a position of `order` has the value that the map gives its key.
    pub proof fn lemma_keys(&self)
        requires
            self.well_formed(),
        ensures
            self@.dom() =~= self.order().to_set(),
            self@.dom().finite(),
            self@.len() == self.order().len(),
            forall|key: BeIpv4Addr| self@.contains_key(key) <==> self.order().contains(key),
    {
        self.order().unique_seq_to_set();
    }

    proof fn lemma_entry(&self, i: int)
        requires
            self.well_formed(),
            0 <= i < self.entries@.len(),
        ensures
            self@.contains_key(self.entries@[i].0),
            self@[self.entries@[i].0] == self.entries@[i].1,
            self.order()[i] == self.entries@[i].0,
    {
        let key = self.entries@[i].0;
        assert(self.order()[i] == key);
        assert(self.order().contains(key));
        let j = self.order().index_of(key);
        assert(self.order()[j] == key);
    }
}

impl<V: Copy> Table<V> {
    /// An empty table in which every address reads as `default`.
    pub fn new(default: V) -> (table: Self)
        ensures
            table@ == Map::<BeIpv4Addr, V>::empty(),
            table.order() == Seq::<BeIpv4Addr>::empty(),
            table.default_value() == default,
    {
        let table = Table { entries: Vec::with_capacity(CAPACITY), default };
        assert(table.order() =~= Seq::<BeIpv4Addr>::empty());
        assert(table@ =~= Map::<BeIpv4Addr, V>::empty());
        table
    }

    /// The value that this table reads for a key without an entry.
    pub fn absent_value(&self) -> (value: V)
        ensures
            value == self.default_value(),
    {
        self.default
    }

    /// The number of entries.
    pub fn len(&self) -> (n: usize)
        ensures
            n == self.order().len(),
            n == self@.len(),
            n <= CAPACITY,
    {
        proof {
            use_type_invariant(self);
            self.lemma_keys();
        }
        self.entries.len()
    }

    /// The position of the entry for `key`, if it has one.
    fn position(&self, key: BeIpv4Addr) -> (found: Option<usize>)
        ensures
            match found {
                Some(i) => i < self.entries@.len() && self.entries@[i as int].0 == key,
                None => !self.order().contains(key),
            },
    {
        let n: usize = self.entries.len();
        let mut i: usize = 0;
        while i < n
            invariant
                n == self.entries@.len(),
                i <= n,
                forall|j: int| 0 <= j < i ==> self.entries@[j].0 != key,
            decreases n - i,
        {
            if self.entries[i].0 == key {
                return Some(i);
            }
            i += 1;
        }
        None
    }

    /// The value stored for `key`, or the table's default where it has none.
    pub fn get(&self, key: BeIpv4Addr) -> (value: V)
        ensures
            value == self.spec_get(key),
            !self@.contains_key(key) ==> value == self.default_value(),
    {
        proof {
            use_type_invariant(self);
        }
        match self.position(key) {
            Some(i) => {
                proof {
                    self.lemma_entry(i as int);
                }
                self.entries[i].1
            },
            None => self.default,
        }
    }

    /// Stores `value` for `key`: in place where the key has an entry, as a new
    /// entry where it has none and the table has room. In a full table a new
    /// key is refused and nothing changes.
    pub fn set(&mut self, key: BeIpv4Addr, value: V) -> (outcome: Result<(), CapacityExceeded>)
        ensures
            outcome is Ok <==> old(self).admits(key),
            old(self).stored(key, value, *final(self)),
    {
        proof {
            use_type_invariant(&*self);
        }
        match self.position(key) {
            Some(i) => {
                let ghost before = *self;
                let mut entries: Vec<(BeIpv4Addr, V)> = Vec::new();
                core::mem::swap(&mut entries, &mut self.entries);
                entries[i] = (key, value);
                proof {
                    assert(entries@.map_values(|entry: (BeIpv4Addr, V)| entry.0)
                        =~= before.order());
                }
                self.entries = entries;
                proof {
                    assert(self.order() =~= before.order());
                    before.lemma_entry(i as int);
                    assert forall|k: BeIpv4Addr| #[trigger] self@.contains_key(k) implies self@[k]
                        == before@.insert(key, value)[k] by {
                        let j = self.order().index_of(k);
                        assert(self.order()[j] == k);
                        before.lemma_entry(j);
                    }
                    assert(self@ =~= before@.insert(key, value));
                }
                Ok(())
            },
            None => {
                if self.entries.len() < CAPACITY {
                    let ghost before = *self;
                    let mut entries: Vec<(BeIpv4Addr, V)> = Vec::new();
                    core::mem::swap(&mut entries, &mut self.entries);
                    entries.push((key, value));
                    proof {
                        assert(entries@.map_values(|entry: (BeIpv4Addr, V)| entry.0)
                            =~= before.order().push(key));
                    }
                    self.entries = entries;
                    proof {
                        assert(self.order() =~= before.order().push(key));
                        assert forall|k: BeIpv4Addr| #[trigger] self@.contains_key(k) implies self@[k]
                            == before@.insert(key, value)[k] by {
                            let j = self.order().index_of(k);
                            assert(self.order()[j] == k);
                            if j < before.order().len() {
                                before.lemma_entry(j);
                            }
                        }
                        assert forall|k: BeIpv4Addr| before@.insert(key, value).contains_key(k)
                            implies self@.contains_key(k) by {
                            if k != key {
                                let j = before.order().index_of(k);
                                assert(self.order()[j] == k);
                            } else {
                                assert(self.order()[before.order().len() as int] == key);
                            }
                        }
                        assert(self@ =~= before@.insert(key, value));
                    }
                    Ok(())
                } else {
                    Err(CapacityExceeded)
                }
            },
        }
    }

    /// Every entry, in the order in which the keys were first stored.
    pub fn entries(&self) -> (list: Vec<(BeIpv4Addr, V)>)
        ensures
            list@ == self.listing(),
    {
        proof {
            use_type_invariant(self);
        }
        let n: usize = self.entries.len();
        let mut list: Vec<(BeIpv4Addr, V)> = Vec::with_capacity(n);
        let mut i: usize = 0;
        while i < n
            invariant
                self.well_formed(),
                n == self.entries@.len(),
                i <= n,
                list@.len() == i,
                forall|j: int| 0 <= j < i ==> list@[j] == self.listing()[j],
            decreases n - i,
        {
            proof {
                self.lemma_entry(i as int);
            }
            list.push(self.entries[i]);
            i += 1;
        }
        assert(list@ =~= self.listing());
        list
    }
}

/// What is read after a `set`: the value stored, where the table took it;
/// for every other key, what was read before.
pub proof fn lemma_read_after_set<V>(
    before: Table<V>,
    key: BeIpv4Addr,
    value: V,
    after: Table<V>,
    other: BeIpv4Addr,
)
    requires
        before.stored(key, value, after),
    ensures
        before.admits(key) ==> after.spec_get(key) == value,
        !before.admits(key) ==> after.spec_get(key) == before.default_value(),
        other != key ==> after.spec_get(other) == before.spec_get(other),
        other != key ==> (after@.contains_key(other) <==> before@.contains_key(other)),
{
}

/// A run of `set` calls on a table that starts empty: `states` holds the
/// table before the first call and after each call, `writes` the key and the
/// value of each call.
pub open spec fn is_history<V>(states: Seq<Table<V>>, writes: Seq<(BeIpv4Addr, V)>) -> bool {
    &&& states.len() == writes.len() + 1
    &&& states[0]@ == Map::<BeIpv4Addr, V>::empty()
    &&& forall|i: int|
        0 <= i < writes.len() ==> states[i].stored((#[trigger] writes[i]).0, writes[i].1, states[i + 1])
}

/// A key that was never written reads as the table's default, whatever was
/// written for other keys.
pub proof fn lemma_default_read<V>(
    states: Seq<Table<V>>,
    writes: Seq<(BeIpv4Addr, V)>,
    key: BeIpv4Addr,
)
    requires
        is_history(states, writes),
        forall|i: int| 0 <= i < writes.len() ==> (#[trigger] writes[i]).0 != key,
    ensures
        !states.last()@.contains_key(key),
        states.last().default_value() == states[0].default_value(),
        states.last().spec_get(key) == states[0].default_value(),
    decreases writes.len(),
{
    if writes.len() > 0 {
        let n = writes.len() - 1;
        let earlier_states = states.drop_last();
        let earlier_writes = writes.drop_last();
        assert forall|i: int| 0 <= i < earlier_writes.len() implies earlier_states[i].stored(
            (#[trigger] earlier_writes[i]).0,
            earlier_writes[i].1,
            earlier_states[i + 1],
        ) by {
            assert(writes[i] == earlier_writes[i]);
        }
        lemma_default_read(earlier_states, earlier_writes, key);
        assert(earlier_states.last() == states[n]);
        assert(states[n].stored(writes[n].0, writes[n].1, states[n + 1]));
        lemma_read_after_set(states[n], writes[n].0, writes[n].1, states[n + 1], key);
    }
}

} // verus!
