//! Cycle detection, scoped per request chain.
//!
//! Each top-level request owns a stack of the keys currently open (requested
//! but not yet resolved) in its own call chain. Requesting a key that is
//! already open anywhere in the chain fails immediately with a cycle error
//! carrying the trigger key and the full ordered chain of keys in the cycle,
//! before any wait that would otherwise deadlock. Unrelated concurrent
//! requests computing the same key are not cycles.

use vstd::prelude::*;

use crate::data::UserComputationData;
use crate::error::DiceError;
use crate::key::DiceKeyErased;

verus! {

#[derive(Debug, Clone, Copy, PartialEq, Eq, Hash, Structural)]
pub enum DetectCycles {
    Enabled,
    Disabled,
}

/// State carried along one request chain: the per-request data and the
/// ordered stack of keys currently open in this chain.
pub struct ComputationData {
    user_data: UserComputationData,
    detect: DetectCycles,
    stack: Vec<DiceKeyErased>,
}

/// The suffix of `stack` from the first occurrence of `k` onward: exactly
/// the keys that take part in the cycle closed by requesting `k` again.
pub open spec fn cycle_suffix(stack: Seq<DiceKeyErased>, k: DiceKeyErased) -> Seq<DiceKeyErased> {
    stack.skip(first_occurrence(stack, k))
}

/// Index of the first occurrence of `k` in `stack` (meaningful only when
/// `stack.contains(k)`).
pub open spec fn first_occurrence(stack: Seq<DiceKeyErased>, k: DiceKeyErased) -> int
    decreases stack.len(),
{
    if stack.len() == 0 {
        0
    } else if stack[0] == k {
        0
    } else {
        1 + first_occurrence(stack.skip(1), k)
    }
}

impl ComputationData {
    pub closed spec fn spec_user_data(self) -> UserComputationData {
        self.user_data
    }

    pub closed spec fn spec_detect(self) -> DetectCycles {
        self.detect
    }

    /// The keys currently open in this request chain, oldest first.
    pub closed spec fn spec_stack(self) -> Seq<DiceKeyErased> {
        self.stack@
    }

    pub fn new(user_data: UserComputationData, detect: DetectCycles) -> (r: ComputationData)
        ensures
            r.spec_user_data() == user_data,
            r.spec_detect() == detect,
            r.spec_stack() =~= Seq::<DiceKeyErased>::empty(),
    {
        ComputationData { user_data, detect, stack: Vec::new() }
    }

    /// Opens a sub-request for `key` in this chain.
    ///
    /// With detection enabled, a key already open anywhere in the chain is a
    /// cycle: the request fails with the trigger key and the chain's keys
    /// from the trigger's first occurrence onward, in order. Otherwise the
    /// key is pushed onto the open chain.
    #[verifier::loop_isolation(false)]
    pub fn subrequest(self, key: DiceKeyErased) -> (r: Result<ComputationData, DiceError>)
        ensures
            match r {
                Ok(next) => {
                    &&& !(self.spec_detect() == DetectCycles::Enabled && self.spec_stack().contains(
                        key,
                    ))
                    &&& next.spec_stack() == self.spec_stack().push(key)
                    &&& next.spec_user_data() == self.spec_user_data()
                    &&& next.spec_detect() == self.spec_detect()
                },
                Err(e) => {
                    &&& self.spec_detect() == DetectCycles::Enabled
                    &&& self.spec_stack().contains(key)
                    &&& match e {
                        DiceError::Cycle { trigger, cyclic_keys } => trigger == key
                            && cyclic_keys@ == cycle_suffix(self.spec_stack(), key),
                        _ => false,
                    }
                },
            },
    {
        let ComputationData { user_data, detect, mut stack } = self;
        let ghost stack0 = stack@;
        if matches!(detect, DetectCycles::Enabled) {
            let n = stack.len();
            let mut i: usize = 0;
            while i < n
                invariant
                    n == stack@.len(),
                    i <= n,
                    forall|j: int| 0 <= j < i ==> stack@[j] != key,
                decreases n - i,
            {
                if stack[i] == key {
                    proof {
                        assert(stack@.contains(key)) by {
                            assert(stack@[i as int] == key);
                        }
                        lemma_first_occurrence(stack@, key, i as int);
                    }
                    let mut cyclic_keys: Vec<DiceKeyErased> = Vec::new();
                    let mut j: usize = i;
                    while j < n
                        invariant
                            n == stack@.len(),
                            i <= j <= n,
                            cyclic_keys@ == stack@.subrange(i as int, j as int),
                        decreases n - j,
                    {
                        cyclic_keys.push(stack[j]);
                        j = j + 1;
                    }
                    proof {
                        assert(cyclic_keys@ =~= stack@.skip(i as int));
                    }
                    return Err(DiceError::Cycle { trigger: key, cyclic_keys });
                }
                i = i + 1;
            }
        }
        stack.push(key);
        proof {
            assert(stack@ =~= stack0.push(key));
        }
        Ok(ComputationData { user_data, detect, stack })
    }

    /// Closes the most recent sub-request; the chain shrinks by one.
    pub fn finished_computing_key(&mut self)
        requires
            old(self).spec_stack().len() > 0,
        ensures
            final(self).spec_stack() == old(self).spec_stack().drop_last(),
            final(self).spec_user_data() == old(self).spec_user_data(),
            final(self).spec_detect() == old(self).spec_detect(),
    {
        self.stack.pop();
    }
}

/// Relates the scanned position of the first hit to `first_occurrence`.
pub proof fn lemma_first_occurrence(stack: Seq<DiceKeyErased>, k: DiceKeyErased, i: int)
    requires
        0 <= i < stack.len(),
        stack[i] == k,
        forall|j: int| 0 <= j < i ==> stack[j] != k,
    ensures
        first_occurrence(stack, k) == i,
    decreases i,
{
    if i > 0 {
        lemma_first_occurrence(stack.skip(1), k, i - 1);
    }
}

} // verus!
