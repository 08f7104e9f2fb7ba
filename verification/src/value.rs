//! Computed values and their validity.

use vstd::prelude::*;

verus! {

/// Whether a computed value may be reused as a durable cache entry.
///
/// A value is `Transient` when it was derived while some dependency was
/// cancelled or partial; it is still returned to the immediate caller but
/// must not be treated as a stable cache hit by the invalidation layer.
/// Within one version the engine keeps answering requesters from a
/// transient entry (recomputing could not do better at the same inputs);
/// only reuse across versions is barred.
#[derive(Debug, Clone, Copy, PartialEq, Eq, Hash, Structural)]
pub enum DiceValidity {
    Valid,
    Transient,
}

impl DiceValidity {
    /// Aggregation: a result is valid only if both sides are.
    pub open spec fn spec_and(self, other: DiceValidity) -> DiceValidity {
        if self == DiceValidity::Valid && other == DiceValidity::Valid {
            DiceValidity::Valid
        } else {
            DiceValidity::Transient
        }
    }

    pub fn and(self, other: DiceValidity) -> (r: DiceValidity)
        ensures
            r == self.spec_and(other),
    {
        match (self, other) {
            (DiceValidity::Valid, DiceValidity::Valid) => DiceValidity::Valid,
            _ => DiceValidity::Transient,
        }
    }
}

/// The result of one key evaluation: the computed value together with its
/// validity tag.
#[derive(Debug, Clone, Copy, PartialEq, Eq, Hash, Structural)]
pub struct DiceComputedValue {
    pub value: u64,
    pub validity: DiceValidity,
}

} // verus!
