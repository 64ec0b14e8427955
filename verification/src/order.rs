//! The strict order on scores, as contracts see it.

use vstd::prelude::*;
use vstd::std_specs::cmp::{OrdSpec, PartialOrdIs, PartialOrdSpec};

verus! {

/// The comparison operators of `T` follow a total order.
pub open spec fn totally_ordered<T: Ord>() -> bool {
    vstd::laws_cmp::obeys_cmp::<T>()
}

/// `a` is strictly better (lower) than `b`.
pub open spec fn better<T: Ord>(a: T, b: T) -> bool {
    a.is_lt(&b)
}

/// No score is better than itself.
pub proof fn lemma_better_irreflexive<T: Ord>(a: T)
    requires
        totally_ordered::<T>(),
    ensures
        !better(a, a),
{
    reveal(vstd::laws_cmp::obeys_partial_cmp_spec_properties);
    reveal(vstd::laws_cmp::obeys_cmp_partial_ord);
    reveal(vstd::laws_cmp::obeys_cmp_ord);
    reveal(vstd::laws_eq::obeys_eq_spec_properties);
    assert(a.partial_cmp_spec(&a) == Some(a.cmp_spec(&a)));
}

/// Of two scores at most one is better than the other.
pub proof fn lemma_better_asymmetric<T: Ord>(a: T, b: T)
    requires
        totally_ordered::<T>(),
        better(a, b),
    ensures
        !better(b, a),
{
    reveal(vstd::laws_cmp::obeys_partial_cmp_spec_properties);
}

/// "Not better than" is transitive as well: the order is total.
pub proof fn lemma_not_better_transitive<T: Ord>(a: T, b: T, c: T)
    requires
        totally_ordered::<T>(),
        !better(a, b),
        !better(b, c),
    ensures
        !better(a, c),
{
    reveal(vstd::laws_cmp::obeys_partial_cmp_spec_properties);
    reveal(vstd::laws_cmp::obeys_cmp_partial_ord);
    reveal(vstd::laws_cmp::obeys_cmp_ord);
    reveal(vstd::laws_eq::obeys_eq_spec_properties);
    assert(a.partial_cmp_spec(&b) == Some(a.cmp_spec(&b)));
    assert(b.partial_cmp_spec(&c) == Some(b.cmp_spec(&c)));
    assert(a.partial_cmp_spec(&c) == Some(a.cmp_spec(&c)));
    assert(c.partial_cmp_spec(&a) == Some(c.cmp_spec(&a)));
    assert(b.partial_cmp_spec(&a) == Some(b.cmp_spec(&a)));
    assert(c.partial_cmp_spec(&b) == Some(c.cmp_spec(&b)));
}

/// What is better than `b` is better than all that `b` is at least as
/// good as.
pub proof fn lemma_better_then_not_worse<T: Ord>(a: T, b: T, c: T)
    requires
        totally_ordered::<T>(),
        better(a, b),
        !better(c, b),
    ensures
        better(a, c),
{
    if !better(a, c) {
        lemma_not_better_transitive(a, c, b);
    }
}

/// Whether `a` is strictly better than `b`.
pub fn is_better<T: Ord + Copy>(a: T, b: T) -> (r: bool)
    requires
        totally_ordered::<T>(),
    ensures
        r == better(a, b),
{
    proof {
        reveal(vstd::laws_cmp::obeys_cmp_partial_ord);
    }
    a < b
}

} // verus!
