use vstd::prelude::*;
use vstd::std_specs::cmp::PartialOrdSpec;

verus! {

/// A priority order on values of type `T`.
///
/// `outranks(a, b)` decides whether `a` takes strict priority over `b`.
/// All of the heap's ordering guarantees are stated over `outranks_spec`;
/// they apply to comparators whose executable decision is pinned to that
/// relation (`obeys_outranks_spec`) and whose relation is a strict weak
/// ordering (`strict_weak`).
pub trait Ranking<T>: Sized {
    /// The relation this comparator decides, at the specification level.
    spec fn outranks_spec(&self, a: T, b: T) -> bool;

    /// Whether `outranks` is known to return exactly `outranks_spec`.
    spec fn obeys_outranks_spec(&self) -> bool;

    /// Decide whether `a` takes strict priority over `b`.
    fn outranks(&self, a: &T, b: &T) -> (r: bool)
        ensures
            self.obeys_outranks_spec() ==> r == self.outranks_spec(*a, *b),
    ;
}

/// The comparator's relation is a strict weak ordering: outranking is
/// asymmetric, and "does not outrank" is transitive.
pub open spec fn strict_weak<T, C: Ranking<T>>(c: C) -> bool {
    &&& forall|a: T, b: T| #[trigger] c.outranks_spec(a, b) ==> !c.outranks_spec(b, a)
    &&& forall|x: T, y: T, z: T|
        #![trigger c.outranks_spec(y, x), c.outranks_spec(z, y)]
        !c.outranks_spec(y, x) && !c.outranks_spec(z, y) ==> !c.outranks_spec(z, x)
}

/// In a strict weak ordering, "does not outrank" composes: if `y` does not
/// outrank `x` and `z` does not outrank `y`, then `z` does not outrank `x`.
pub proof fn lemma_unranked_trans<T, C: Ranking<T>>(c: C, x: T, y: T, z: T)
    requires
        strict_weak(c),
        !c.outranks_spec(y, x),
        !c.outranks_spec(z, y),
    ensures
        !c.outranks_spec(z, x),
{
    assert(!c.outranks_spec(y, x) && !c.outranks_spec(z, y));
}

/// In a strict weak ordering, outranking itself is transitive.
pub proof fn lemma_outranks_trans<T, C: Ranking<T>>(c: C, x: T, y: T, z: T)
    requires
        strict_weak(c),
        c.outranks_spec(x, y),
        c.outranks_spec(y, z),
    ensures
        c.outranks_spec(x, z),
{
    if !c.outranks_spec(x, z) {
        assert(!c.outranks_spec(z, y));
        lemma_unranked_trans(c, z, x, y);
        assert(false);
    }
}

/// Orders by the natural order, smallest first: a value outranks another
/// when it is strictly smaller.
#[derive(Clone, Copy, Debug)]
pub struct MinOrder;

impl<T: PartialOrd> Ranking<T> for MinOrder {
    open spec fn outranks_spec(&self, a: T, b: T) -> bool {
        a.partial_cmp_spec(&b) == Some(core::cmp::Ordering::Less)
    }

    open spec fn obeys_outranks_spec(&self) -> bool {
        T::obeys_partial_cmp_spec()
    }

    fn outranks(&self, a: &T, b: &T) -> (r: bool) {
        *a < *b
    }
}

/// Orders by the natural order, largest first: a value outranks another
/// when it is strictly greater.
#[derive(Clone, Copy, Debug)]
pub struct MaxOrder;

impl<T: PartialOrd> Ranking<T> for MaxOrder {
    open spec fn outranks_spec(&self, a: T, b: T) -> bool {
        a.partial_cmp_spec(&b) == Some(core::cmp::Ordering::Greater)
    }

    open spec fn obeys_outranks_spec(&self) -> bool {
        T::obeys_partial_cmp_spec()
    }

    fn outranks(&self, a: &T, b: &T) -> (r: bool) {
        *a > *b
    }
}

} // verus!
