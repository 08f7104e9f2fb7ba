//! Per-evaluation dependency tracking.
//!
//! While one key's compute logic runs, every key it reads is recorded here
//! together with the validity of the value observed. On completion the
//! tracker finalizes into the de-duplicated dependency edge set and the
//! aggregate validity: transient as soon as any recorded dependency was.

use vstd::prelude::*;

use crate::key::DiceKey;
use crate::value::DiceValidity;

verus! {

/// `t1` is `t0` after recording exactly one read: the edge `dk` with the
/// observed validity `v` — nothing else enters or leaves the edge set.
pub open spec fn tracker_records(
    t0: RecordingDepsTracker,
    t1: RecordingDepsTracker,
    dk: DiceKey,
    v: DiceValidity,
) -> bool {
    &&& t1.recorded().contains(dk)
    &&& t0.recorded().contains(dk) ==> t1.recorded() == t0.recorded()
    &&& !t0.recorded().contains(dk) ==> t1.recorded() == t0.recorded().push(dk)
    &&& t1.validity() == t0.validity().spec_and(v)
}

pub struct RecordingDepsTracker {
    deps: Vec<DiceKey>,
    validity: DiceValidity,
}

impl RecordingDepsTracker {
    /// The dependency keys recorded so far, in first-read order, each once.
    pub closed spec fn recorded(self) -> Seq<DiceKey> {
        self.deps@
    }

    /// Aggregate validity of everything recorded so far.
    pub closed spec fn validity(self) -> DiceValidity {
        self.validity
    }

    pub open spec fn wf(self) -> bool {
        self.recorded().no_duplicates()
    }

    pub fn new() -> (r: RecordingDepsTracker)
        ensures
            r.wf(),
            r.recorded() =~= Seq::<DiceKey>::empty(),
            r.validity() == DiceValidity::Valid,
    {
        RecordingDepsTracker { deps: Vec::new(), validity: DiceValidity::Valid }
    }

    /// Records one dependency read. A key read twice is recorded once; a
    /// single transient read makes the aggregate transient for good.
    pub fn record(&mut self, k: DiceKey, v: DiceValidity)
        requires
            old(self).wf(),
        ensures
            final(self).wf(),
            final(self).recorded().contains(k),
            old(self).recorded().contains(k) ==> final(self).recorded() == old(self).recorded(),
            !old(self).recorded().contains(k) ==> final(self).recorded() == old(
                self,
            ).recorded().push(k),
            final(self).validity() == old(self).validity().spec_and(v),
    {
        let n = self.deps.len();
        let mut i: usize = 0;
        let mut found = false;
        while i < n
            invariant
                n == self.deps@.len(),
                i <= n,
                found <==> exists|j: int| 0 <= j < i && self.deps@[j] == k,
            decreases n - i,
        {
            if self.deps[i] == k {
                found = true;
            }
            i = i + 1;
        }
        if !found {
            self.deps.push(k);
        }
        self.validity = self.validity.and(v);
        proof {
            if old(self).recorded().contains(k) {
                let y = choose|y: int|
                    0 <= y < old(self).recorded().len() && old(self).recorded()[y] == k;
                assert(self.recorded()[y] == k);
            } else {
                assert(self.recorded().last() == k);
            }
        }
    }

    /// Finalizes the tracker into the recorded edge set and the aggregate
    /// validity of this evaluation.
    pub fn collect_deps(self) -> (r: (Vec<DiceKey>, DiceValidity))
        ensures
            r.0@ == self.recorded(),
            r.1 == self.validity(),
    {
        (self.deps, self.validity)
    }
}

} // verus!
