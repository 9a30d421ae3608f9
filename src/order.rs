//! The ordering that values in a window are compared by.
use vstd::prelude::*;
use vstd::std_specs::cmp::PartialOrdSpec;

verus! {

/// `a` comes no later than `b` in the value type's ordering.
pub open spec fn le<T: PartialOrd>(a: T, b: T) -> bool {
    a.partial_cmp_spec(&b) matches Some(core::cmp::Ordering::Less | core::cmp::Ordering::Equal)
}

/// The value type's comparison is a total order: every two values compare,
/// the answer read from either side agrees, and "no greater than" is
/// transitive.
pub open spec fn total_order<T: PartialOrd>() -> bool {
    &&& T::obeys_partial_cmp_spec()
    &&& forall|a: T, b: T| #[trigger] a.partial_cmp_spec(&b) is Some
    &&& forall|a: T, b: T|
        (#[trigger] a.partial_cmp_spec(&b) == Some(core::cmp::Ordering::Less)) == (
        b.partial_cmp_spec(&a) == Some(core::cmp::Ordering::Greater))
    &&& forall|a: T, b: T, c: T| #[trigger] le(a, b) && #[trigger] le(b, c) ==> le(a, c)
}

/// Every value is no greater than itself.
pub proof fn lemma_le_refl<T: PartialOrd>(a: T)
    requires
        total_order::<T>(),
    ensures
        le(a, a),
{
    assert(a.partial_cmp_spec(&a) is Some);
}

/// Of two values, one is no greater than the other.
pub proof fn lemma_le_total<T: PartialOrd>(a: T, b: T)
    requires
        total_order::<T>(),
    ensures
        le(a, b) || le(b, a),
{
    assert(a.partial_cmp_spec(&b) is Some);
    assert(b.partial_cmp_spec(&a) is Some);
}

} // verus!
