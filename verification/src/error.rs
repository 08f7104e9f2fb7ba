//! The engine's error taxonomy.
//!
//! Every failure mode is one of three kinds: a request chain revisited an
//! already-open key (`Cycle`), the awaited task or its cache generation was
//! cancelled before producing a value for this waiter (`Cancelled`), or
//! evaluation data was stored twice in one evaluation
//! (`DuplicateActivationData`).

use vstd::prelude::*;

use crate::key::DiceKeyErased;

verus! {

#[derive(Debug, Clone, PartialEq, Eq)]
pub enum DiceError {
    /// The request chain revisited an already-open key. `trigger` is the key
    /// that would have reintroduced the duplicate; `cyclic_keys` is the full
    /// ordered chain of open keys from the trigger's first occurrence onward.
    Cycle { trigger: DiceKeyErased, cyclic_keys: Vec<DiceKeyErased> },
    /// The awaited task, or the cache generation it belonged to, was
    /// cancelled before producing a value for this waiter.
    Cancelled,
    /// `store_evaluation_data` was called more than once in one evaluation.
    DuplicateActivationData,
}

impl DiceError {
    pub fn cancelled() -> (r: DiceError)
        ensures
            r == DiceError::Cancelled,
    {
        DiceError::Cancelled
    }

    pub fn duplicate_activation_data() -> (r: DiceError)
        ensures
            r == DiceError::DuplicateActivationData,
    {
        DiceError::DuplicateActivationData
    }
}

pub type DiceResult<T> = Result<T, DiceError>;

/// Marker for a computation that was cancelled before completion, used by the
/// task-protocol results that only distinguish "cancelled" from "done".
#[derive(Debug, Clone, Copy, PartialEq, Eq, Structural)]
pub struct Cancelled;

pub type CancellableResult<T> = Result<T, Cancelled>;

} // verus!
