//! Slot sequences: one slot per key, in position order.
//!
//! Both containers are modelled by the sequence of their slots. Reading and
//! writing by key go through the key's position; the laws below follow from
//! the numbering being one-to-one and in range.
use crate::enumerated::Enumerated;
use vstd::prelude::*;

verus! {

/// What the slot of `key` holds in `slots`.
pub open spec fn slot_of<K: Enumerated, T>(slots: Seq<T>, key: K) -> T {
    slots[key.spec_position() as int]
}

/// The slot sequence in which the slot of `key` holds `content` and every
/// other slot is as in `slots`.
pub open spec fn with_slot<K: Enumerated, T>(slots: Seq<T>, key: K, content: T) -> Seq<T> {
    slots.update(key.spec_position() as int, content)
}

/// Whether `slots` has one slot for each value of `K`.
pub open spec fn covers<K: Enumerated, T>(slots: Seq<T>) -> bool {
    slots.len() == K::spec_len()
}

/// Writing the slot of a key keeps one slot per key, makes that slot hold
/// what was written, and leaves the slot of any other key as it was.
pub proof fn lemma_write_then_read<K: Enumerated, T>(slots: Seq<T>, key: K, content: T, other: K)
    requires
        covers::<K, T>(slots),
    ensures
        covers::<K, T>(with_slot(slots, key, content)),
        slot_of(with_slot(slots, key, content), key) == content,
        other != key ==> slot_of(with_slot(slots, key, content), other) == slot_of(slots, other),
{
    key.lemma_position_in_range();
    other.lemma_position_in_range();
    if other.spec_position() == key.spec_position() {
        K::lemma_position_injective(other, key);
    }
}

/// Of two writes to the slot of one key only the second one shows.
pub proof fn lemma_write_overwrites<K: Enumerated, T>(slots: Seq<T>, key: K, first: T, second: T)
    requires
        covers::<K, T>(slots),
    ensures
        with_slot(with_slot(slots, key, first), key, second) == with_slot(slots, key, second),
{
    key.lemma_position_in_range();
}

/// Writing to a slot what it already holds changes nothing.
pub proof fn lemma_write_same<K: Enumerated, T>(slots: Seq<T>, key: K)
    requires
        covers::<K, T>(slots),
    ensures
        with_slot(slots, key, slot_of(slots, key)) == slots,
{
    key.lemma_position_in_range();
}

} // verus!
