//! The order in which the heap keeps its elements.
//!
//! Elements are compared through `Ord`. The heap only ever asks whether one
//! element is *not greater* than another, so every statement about it is
//! phrased over the single relation [`le`].

use core::cmp::Ordering;
use vstd::prelude::*;
use vstd::std_specs::cmp::{OrdSpec, PartialEqSpec, PartialOrdSpec};

verus! {

/// `a` is not greater than `b` under the comparison of `T`.
pub open spec fn le<T: Ord>(a: T, b: T) -> bool {
    a.cmp_spec(&b) != Ordering::Greater
}

/// The executable comparison of `T` returns what `cmp_spec` says.
pub open spec fn compares_as_specified<T: Ord>() -> bool {
    T::obeys_cmp_spec()
}

/// The comparison of `T` runs as specified, and [`le`] is total and
/// transitive. Elements that compare equal need not be identical.
pub open spec fn total_preorder<T: Ord>() -> bool {
    &&& compares_as_specified::<T>()
    &&& forall|a: T, b: T| #[trigger] le(a, b) || le(b, a)
    &&& forall|a: T, b: T, c: T| #[trigger] le(a, b) && #[trigger] le(b, c) ==> le(a, c)
}

/// Whether `a` is not greater than `b`.
pub(crate) fn is_le<T: Ord>(a: &T, b: &T) -> (r: bool)
    ensures
        compares_as_specified::<T>() ==> r == le(*a, *b),
{
    match a.cmp(b) {
        Ordering::Greater => false,
        _ => true,
    }
}

/// Whether `a` is greater than `b`.
pub(crate) fn is_gt<T: Ord>(a: &T, b: &T) -> (r: bool)
    ensures
        compares_as_specified::<T>() ==> r == !le(*a, *b),
{
    match a.cmp(b) {
        Ordering::Greater => true,
        _ => false,
    }
}

/// Any type whose comparison satisfies the laws that `vstd` states for `Ord`
/// is totally preordered by [`le`].
pub proof fn lemma_lawful_ord_is_total_preorder<T: Ord>()
    requires
        vstd::laws_cmp::obeys_cmp::<T>(),
    ensures
        total_preorder::<T>(),
{
    reveal(vstd::laws_cmp::obeys_cmp_ord);
    reveal(vstd::laws_cmp::obeys_cmp_partial_ord);
    reveal(vstd::laws_cmp::obeys_partial_cmp_spec_properties);
    reveal(vstd::laws_eq::obeys_eq_spec_properties);
    assert forall|a: T, b: T, c: T| #[trigger] le(a, b) && #[trigger] le(b, c) implies le(a, c) by {
        if !le(a, c) {
            // Then `c` is less than `a`, which cannot be.
            if a.cmp_spec(&b) == Ordering::Less {
                assert(c.partial_cmp_spec(&b) == Some(Ordering::Less));
            } else if b.cmp_spec(&c) == Ordering::Less {
                assert(b.partial_cmp_spec(&a) == Some(Ordering::Less));
            } else {
                assert(a.eq_spec(&c));
            }
        }
    }
}

} // verus!
