//! A map from the values of an enumeration to optional values.
use crate::enumerated::Enumerated;
use crate::slots::{
    covers, lemma_write_overwrites, lemma_write_same, lemma_write_then_read, slot_of, with_slot,
};
use std::marker::PhantomData;
use vstd::prelude::*;

verus! {

/// A key-value map optimized for enumerations used as keys.
///
/// One slot per key is allocated up front, so the map never grows. A slot is
/// either empty or holds the value bound to its key.
pub struct EnumMap<K: Enumerated, V> {
    values: Vec<Option<V>>,
    _key_phantom_data: PhantomData<K>,
}

impl<K: Enumerated, V> View for EnumMap<K, V> {
    type V = Seq<Option<V>>;

    /// The slots in position order, one per key.
    closed spec fn view(&self) -> Seq<Option<V>> {
        Seq::new(K::spec_len() as nat, |i: int| self.values@[i])
    }
}

impl<K: Enumerated, V> EnumMap<K, V> {
    #[verifier::type_invariant]
    spec fn well_formed(&self) -> bool {
        self.values@.len() == K::spec_len()
    }

    /// What the map holds under `key`.
    pub open spec fn spec_get(&self, key: K) -> Option<V> {
        slot_of(self@, key)
    }

    /// A map has exactly one slot per key.
    pub proof fn lemma_covers(&self)
        ensures
            covers::<K, Option<V>>(self@),
    {
    }

    /// Creates a map with one empty slot for each value of `K`.
    pub fn new() -> (map: Self)
        ensures
            map@ == Seq::new(K::spec_len() as nat, |i: int| None::<V>),
            forall|key: K| map.spec_get(key) is None,
    {
        let n: usize = K::len();
        let mut values: Vec<Option<V>> = Vec::new();
        let mut i: usize = 0;
        while i < n
            invariant
                i <= n,
                values@ == Seq::new(i as nat, |j: int| None::<V>),
            decreases n - i,
        {
            values.push(None);
            i = i + 1;
        }
        let map = EnumMap { values, _key_phantom_data: PhantomData };
        proof {
            assert forall|key: K| map.spec_get(key) is None by {
                key.lemma_position_in_range();
            }
        }
        map
    }

    /// Looks up the value bound to `key`, if any.
    pub fn get(&self, key: K) -> (value: Option<&V>)
        ensures
            value == match self.spec_get(key) {
                Some(v) => Some(&v),
                None => None,
            },
    {
        let position: usize = key.position();
        proof {
            use_type_invariant(self);
        }
        self.values[position].as_ref()
    }

    /// Binds `value` to `key`, replacing what was bound before. The slots of
    /// all other keys stay as they are.
    pub fn insert(&mut self, key: K, value: V)
        ensures
            final(self)@ == with_slot(old(self)@, key, Some(value)),
            final(self).spec_get(key) == Some(value),
            forall|other: K| other != key ==> final(self).spec_get(other) == old(self).spec_get(other),
    {
        let position: usize = key.position();
        proof {
            use_type_invariant(&*self);
        }
        self.values[position] = Some(value);
        proof {
            assert(self@ =~= with_slot(old(self)@, key, Some(value)));
            assert forall|other: K| other != key implies self.spec_get(other) == old(
                self,
            ).spec_get(other) by {
                lemma_write_then_read(old(self)@, key, Some(value), other);
            }
        }
    }

    /// Empties the slot of `key`. The slots of all other keys stay as they
    /// are, and where the slot was empty already nothing changes.
    pub fn remove(&mut self, key: K)
        ensures
            final(self)@ == with_slot(old(self)@, key, None),
            final(self).spec_get(key) is None,
            forall|other: K| other != key ==> final(self).spec_get(other) == old(self).spec_get(other),
            old(self).spec_get(key) is None ==> final(self)@ == old(self)@,
    {
        let position: usize = key.position();
        proof {
            use_type_invariant(&*self);
        }
        self.values[position] = None;
        proof {
            assert(self@ =~= with_slot(old(self)@, key, None));
            assert forall|other: K| other != key implies self.spec_get(other) == old(
                self,
            ).spec_get(other) by {
                lemma_write_then_read(old(self)@, key, None, other);
            }
        }
    }

    /// The slots in position order.
    pub fn as_slice(&self) -> (slots: &[Option<V>])
        ensures
            slots@ == self@,
    {
        proof {
            use_type_invariant(self);
        }
        self.values.as_slice()
    }
}

impl<K: Enumerated, V> Default for EnumMap<K, V> {
    /// Creates a map with one empty slot for each value of `K`.
    fn default() -> (map: Self)
        ensures
            map@ == Seq::new(K::spec_len() as nat, |i: int| None::<V>),
            forall|key: K| map.spec_get(key) is None,
    {
        Self::new()
    }
}

/// Removing a key twice leaves the map as removing it once does, and
/// removing a key that is not bound leaves the map as it is.
pub proof fn lemma_remove_idempotent<K: Enumerated, V>(slots: Seq<Option<V>>, key: K)
    requires
        covers::<K, Option<V>>(slots),
    ensures
        with_slot(with_slot(slots, key, None), key, None) == with_slot(slots, key, None),
        slot_of(slots, key) is None ==> with_slot(slots, key, None) == slots,
{
    lemma_write_overwrites(slots, key, None, None);
    lemma_write_same(slots, key);
}

/// Of two inserts under one key only the second one shows: the map is as if
/// the first had never happened, and the key is bound to the second value.
pub proof fn lemma_insert_overwrites<K: Enumerated, V>(
    slots: Seq<Option<V>>,
    key: K,
    first: V,
    second: V,
)
    requires
        covers::<K, Option<V>>(slots),
    ensures
        with_slot(with_slot(slots, key, Some(first)), key, Some(second)) == with_slot(
            slots,
            key,
            Some(second),
        ),
        slot_of(with_slot(with_slot(slots, key, Some(first)), key, Some(second)), key) == Some(
            second,
        ),
{
    lemma_write_overwrites(slots, key, Some(first), Some(second));
    lemma_write_then_read(slots, key, Some(second), key);
}

/// Removing a key after binding a value to it leaves the map as removing the
/// key alone does; where the key was not bound before, the map is as it was
/// before the insert.
pub proof fn lemma_remove_after_insert<K: Enumerated, V>(slots: Seq<Option<V>>, key: K, value: V)
    requires
        covers::<K, Option<V>>(slots),
    ensures
        with_slot(with_slot(slots, key, Some(value)), key, None) == with_slot(slots, key, None),
        slot_of(slots, key) is None ==> with_slot(with_slot(slots, key, Some(value)), key, None)
            == slots,
{
    lemma_write_overwrites(slots, key, Some(value), None);
    lemma_write_same(slots, key);
}

impl<K: Enumerated, V: Default> std::ops::Index<K> for EnumMap<K, V> {
    type Output = Option<V>;

    /// The slot of `key`.
    fn index(&self, key: K) -> (slot: &Option<V>)
        ensures
            *slot == self.spec_get(key),
    {
        let position: usize = key.position();
        proof {
            use_type_invariant(self);
        }
        &self.values[position]
    }
}

impl<K: Enumerated, V: Default> vstd::std_specs::core::IndexSpecImpl<K> for EnumMap<K, V> {
    open spec fn index_req(&self, key: &K) -> bool {
        true
    }
}

impl<K: Enumerated, V: Default> std::ops::IndexMut<K> for EnumMap<K, V> {
    /// The slot of `key`, for writing: what is stored through the reference
    /// replaces the slot outright.
    fn index_mut(&mut self, key: K) -> (slot: &mut Option<V>)
        ensures
            *slot == old(self).spec_get(key),
            final(self)@ == with_slot(old(self)@, key, *final(slot)),
    {
        let position: usize = key.position();
        proof {
            use_type_invariant(&*self);
        }
        &mut self.values[position]
    }
}

} // verus!
