//! The contract between a key type and the containers indexed by it.
use vstd::prelude::*;

verus! {

/// A type with finitely many values, numbered densely from zero.
///
/// `spec_position` is a bijection between the values of the type and the
/// integers below `spec_len()`. The three proof obligations state exactly
/// that, and whoever implements the trait has to discharge them: a numbering
/// with a gap, a collision or a position out of range does not verify, so
/// it is turned down where the key type is defined and not where a container
/// is indexed. The two executable methods compute the numbering at run time.
///
/// For an enumeration without fields, the position of a variant is its
/// index in declaration order and the length is the number of variants.
pub trait Enumerated: Sized {
    /// The position assigned to `self`.
    spec fn spec_position(self) -> usize;

    /// The number of values of the type.
    spec fn spec_len() -> usize;

    /// Every position lies below the number of values.
    proof fn lemma_position_in_range(self)
        ensures
            self.spec_position() < Self::spec_len(),
    ;

    /// No two values share a position.
    proof fn lemma_position_injective(a: Self, b: Self)
        requires
            a.spec_position() == b.spec_position(),
        ensures
            a == b,
    ;

    /// Every integer below the number of values is the position of a value.
    proof fn lemma_position_surjective(i: usize)
        requires
            i < Self::spec_len(),
        ensures
            exists|k: Self| #[trigger] k.spec_position() == i,
    ;

    /// Maps a value to its position, usable as an index into an array of
    /// `len()` elements.
    fn position(self) -> (p: usize)
        ensures
            p == self.spec_position(),
            p < Self::spec_len(),
    ;

    /// Total number of values of the type.
    fn len() -> (n: usize)
        ensures
            n == Self::spec_len(),
    ;
}

/// The numbering of a key type is one-to-one and onto the integers below its
/// length: every position is in range, two distinct values have distinct
/// positions, and an integer in range is the position of exactly one value.
pub proof fn lemma_position_bijective<K: Enumerated>(a: K, b: K, i: usize)
    ensures
        a.spec_position() < K::spec_len(),
        a != b ==> a.spec_position() != b.spec_position(),
        i < K::spec_len() ==> exists|k: K|
            #![trigger k.spec_position()]
            k.spec_position() == i && forall|other: K|
                #[trigger] other.spec_position() == i ==> other == k,
{
    a.lemma_position_in_range();
    if a.spec_position() == b.spec_position() {
        K::lemma_position_injective(a, b);
    }
    if i < K::spec_len() {
        K::lemma_position_surjective(i);
        let k = choose|k: K| #[trigger] k.spec_position() == i;
        assert forall|other: K| #[trigger] other.spec_position() == i implies other == k by {
            K::lemma_position_injective(other, k);
        }
    }
}

/// The two truth values, `false` before `true`.
impl Enumerated for bool {
    open spec fn spec_position(self) -> usize {
        if self {
            1
        } else {
            0
        }
    }

    open spec fn spec_len() -> usize {
        2
    }

    proof fn lemma_position_in_range(self) {
    }

    proof fn lemma_position_injective(a: Self, b: Self) {
    }

    proof fn lemma_position_surjective(i: usize) {
        if i == 0 {
            assert(false.spec_position() == i);
        } else {
            assert(true.spec_position() == i);
        }
    }

    fn position(self) -> (p: usize) {
        if self {
            1
        } else {
            0
        }
    }

    fn len() -> (n: usize) {
        2
    }
}

} // verus!
