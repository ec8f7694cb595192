//! A table from the values of an enumeration to always-present values.
use crate::enumerated::Enumerated;
use crate::slots::{
    covers, lemma_write_overwrites, lemma_write_same, lemma_write_then_read, slot_of, with_slot,
};
use std::marker::PhantomData;
use vstd::prelude::*;

verus! {

/// Whether `value` is a value that `V::default()` may return.
pub open spec fn is_default<V: Default>(value: V) -> bool {
    call_ensures(V::default, (), value)
}

/// Whether every slot of `slots` holds a default value of `V`.
pub open spec fn all_default<V: Default>(slots: Seq<V>) -> bool {
    forall|i: int| 0 <= i < slots.len() ==> is_default(#[trigger] slots[i])
}

/// A key-value table optimized for enumerations used as keys, in which every
/// key is bound to a value at all times.
///
/// One slot per key is allocated up front and filled with a default value of
/// `V`, so the table never grows and a lookup never comes back empty.
pub struct EnumTable<K: Enumerated, V: Default> {
    values: Vec<V>,
    _key_phantom_data: PhantomData<K>,
}

impl<K: Enumerated, V: Default> View for EnumTable<K, V> {
    type V = Seq<V>;

    /// The slots in position order, one per key.
    closed spec fn view(&self) -> Seq<V> {
        Seq::new(K::spec_len() as nat, |i: int| self.values@[i])
    }
}

impl<K: Enumerated, V: Default> EnumTable<K, V> {
    #[verifier::type_invariant]
    spec fn well_formed(&self) -> bool {
        self.values@.len() == K::spec_len()
    }

    /// What the table holds under `key`.
    pub open spec fn spec_get(&self, key: K) -> V {
        slot_of(self@, key)
    }

    /// A table has exactly one slot per key.
    pub proof fn lemma_covers(&self)
        ensures
            covers::<K, V>(self@),
    {
    }

    /// Creates a table in which every value of `K` is bound to a default
    /// value of `V`.
    pub fn new() -> (table: Self)
        ensures
            covers::<K, V>(table@),
            all_default(table@),
            forall|key: K| is_default(table.spec_get(key)),
    {
        let n: usize = K::len();
        let mut values: Vec<V> = Vec::new();
        let mut i: usize = 0;
        while i < n
            invariant
                i <= n,
                values@.len() == i,
                all_default(values@),
            decreases n - i,
        {
            values.push(V::default());
            i = i + 1;
        }
        let table = EnumTable { values, _key_phantom_data: PhantomData };
        proof {
            assert forall|key: K| is_default(table.spec_get(key)) by {
                key.lemma_position_in_range();
            }
        }
        table
    }

    /// Looks up the value bound to `key`.
    pub fn get(&self, key: K) -> (value: &V)
        ensures
            *value == self.spec_get(key),
    {
        let position: usize = key.position();
        proof {
            use_type_invariant(self);
        }
        &self.values[position]
    }

    /// Binds `value` to `key`, replacing what was bound before. The slots of
    /// all other keys stay as they are.
    pub fn insert(&mut self, key: K, value: V)
        ensures
            final(self)@ == with_slot(old(self)@, key, value),
            final(self).spec_get(key) == value,
            forall|other: K| other != key ==> final(self).spec_get(other) == old(self).spec_get(other),
    {
        let position: usize = key.position();
        proof {
            use_type_invariant(&*self);
        }
        self.values[position] = value;
        proof {
            assert(self@ =~= with_slot(old(self)@, key, value));
            assert forall|other: K| other != key implies self.spec_get(other) == old(
                self,
            ).spec_get(other) by {
                lemma_write_then_read(old(self)@, key, value, other);
            }
        }
    }

    /// Binds a fresh default value of `V` to `key`, replacing what was bound
    /// before. The slots of all other keys stay as they are.
    pub fn reset(&mut self, key: K)
        ensures
            is_default(final(self).spec_get(key)),
            final(self)@ == with_slot(old(self)@, key, final(self).spec_get(key)),
            forall|other: K| other != key ==> final(self).spec_get(other) == old(self).spec_get(other),
    {
        let position: usize = key.position();
        proof {
            use_type_invariant(&*self);
        }
        self.values[position] = V::default();
        proof {
            assert(self@ =~= with_slot(old(self)@, key, self.spec_get(key)));
            assert forall|other: K| other != key implies self.spec_get(other) == old(
                self,
            ).spec_get(other) by {
                lemma_write_then_read(old(self)@, key, self.spec_get(key), other);
            }
        }
    }

    /// The slots in position order.
    pub fn as_slice(&self) -> (slots: &[V])
        ensures
            slots@ == self@,
    {
        proof {
            use_type_invariant(self);
        }
        self.values.as_slice()
    }
}

impl<K: Enumerated, V: Default> Default for EnumTable<K, V> {
    /// Creates a table in which every value of `K` is bound to a default
    /// value of `V`.
    fn default() -> (table: Self)
        ensures
            covers::<K, V>(table@),
            all_default(table@),
            forall|key: K| is_default(table.spec_get(key)),
    {
        Self::new()
    }
}

/// Of two inserts under one key only the second one shows: the table is as
/// if the first had never happened, and the key is bound to the second value.
pub proof fn lemma_insert_overwrites<K: Enumerated, V: Default>(
    slots: Seq<V>,
    key: K,
    first: V,
    second: V,
)
    requires
        covers::<K, V>(slots),
    ensures
        with_slot(with_slot(slots, key, first), key, second) == with_slot(slots, key, second),
        slot_of(with_slot(with_slot(slots, key, first), key, second), key) == second,
{
    lemma_write_overwrites(slots, key, first, second);
    lemma_write_then_read(slots, key, second, key);
}

/// Resetting a key after binding a value to it leaves no trace of the
/// insert: the table is as resetting the key alone leaves it. Where the slot
/// held that same default before the insert, the table is as it was before
/// the insert, and a table whose slots all held defaults is such a table
/// again.
pub proof fn lemma_reset_after_insert<K: Enumerated, V: Default>(
    slots: Seq<V>,
    key: K,
    value: V,
    fresh: V,
)
    requires
        covers::<K, V>(slots),
        is_default(fresh),
    ensures
        with_slot(with_slot(slots, key, value), key, fresh) == with_slot(slots, key, fresh),
        slot_of(slots, key) == fresh ==> with_slot(with_slot(slots, key, value), key, fresh)
            == slots,
        all_default(slots) ==> all_default(with_slot(with_slot(slots, key, value), key, fresh)),
{
    lemma_write_overwrites(slots, key, value, fresh);
    lemma_write_same(slots, key);
    key.lemma_position_in_range();
}

impl<K: Enumerated, V: Default> std::ops::Index<K> for EnumTable<K, V> {
    type Output = V;

    /// The slot of `key`.
    fn index(&self, key: K) -> (slot: &V)
        ensures
            *slot == self.spec_get(key),
    {
        let position: usize = key.position();
        proof {
            use_type_invariant(self);
        }
        &self.values[position]
    }
}

impl<K: Enumerated, V: Default> vstd::std_specs::core::IndexSpecImpl<K> for EnumTable<K, V> {
    open spec fn index_req(&self, key: &K) -> bool {
        true
    }
}

impl<K: Enumerated, V: Default> std::ops::IndexMut<K> for EnumTable<K, V> {
    /// The slot of `key`, for writing: what is stored through the reference
    /// replaces the slot outright.
    fn index_mut(&mut self, key: K) -> (slot: &mut V)
        ensures
            *slot == old(self).spec_get(key),
            final(self)@ == with_slot(old(self)@, key, *final(slot)),
    {
        let position: usize = key.position();
        proof {
            use_type_invariant(&*self);
        }
        &mut self.values[position]
    }
}

} // verus!
