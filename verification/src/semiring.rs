//! The min-plus semiring over path weights.

use vstd::prelude::*;

verus! {

/// The sum of the weights along a walk.
pub type Distance = u64;

/// A value of the min-plus semiring: `combine` keeps the smaller of two
/// alternatives, `extend` adds a further stretch of path.
#[derive(Clone, Copy, Debug, PartialEq, Eq, Structural, Hash)]
pub struct MinSum {
    pub value: Distance,
}

/// The smaller of two weights.
pub open spec fn combine(a: nat, b: nat) -> nat {
    if a <= b {
        a
    } else {
        b
    }
}

/// The weight of a path followed by another.
pub open spec fn extend(a: nat, b: nat) -> nat {
    a + b
}

impl MinSum {
    /// The value `value` of the semiring.
    pub fn new(value: Distance) -> (r: MinSum)
        ensures
            r.value == value,
    {
        MinSum { value }
    }

    /// Merges an alternative into `self`: the smaller value stays.
    pub fn add_assign(&mut self, rhs: &MinSum)
        ensures
            final(self).value == combine(old(self).value as nat, rhs.value as nat),
    {
        if rhs.value < self.value {
            self.value = rhs.value;
        }
    }

    /// Composes two stretches of path.
    pub fn mul(self, rhs: MinSum) -> (r: MinSum)
        requires
            self.value + rhs.value <= Distance::MAX,
        ensures
            r.value == extend(self.value as nat, rhs.value as nat),
    {
        MinSum { value: self.value + rhs.value }
    }

    /// Whether the value can be left out of what it is combined into. None
    /// can: no value counts as the zero of `combine`.
    pub fn is_zero(&self) -> (r: bool)
        ensures
            !r,
    {
        false
    }
}

/// `combine` is associative.
pub proof fn lemma_combine_associative(a: nat, b: nat, c: nat)
    ensures
        combine(combine(a, b), c) == combine(a, combine(b, c)),
{
}

/// `combine` is commutative.
pub proof fn lemma_combine_commutative(a: nat, b: nat)
    ensures
        combine(a, b) == combine(b, a),
{
}

/// Combining a value with itself changes nothing.
pub proof fn lemma_combine_idempotent(a: nat)
    ensures
        combine(a, a) == a,
{
}

/// `extend` is associative, and extending by 0 changes nothing.
pub proof fn lemma_extend_associative(a: nat, b: nat, c: nat)
    ensures
        extend(extend(a, b), c) == extend(a, extend(b, c)),
        extend(a, 0) == a,
        extend(0, a) == a,
{
}

/// `extend` distributes over `combine`.
pub proof fn lemma_extend_distributes(a: nat, b: nat, c: nat)
    ensures
        extend(a, combine(b, c)) == combine(extend(a, b), extend(a, c)),
        extend(combine(b, c), a) == combine(extend(b, a), extend(c, a)),
{
}

} // verus!
