//! Global and per-transaction data.
//!
//! [`DiceData`] is fixed for the engine's entire lifetime. Besides an opaque
//! data bag it holds the rule table that gives every requestable key its
//! compute logic as data: which keys a key reads, which projections it
//! derives, and how the observed values combine into its own value.
//! [`UserComputationData`] is fixed for one top-level request and distinct
//! per concurrent request.

use vstd::prelude::*;

verus! {

/// One projection read performed by a key's compute logic: the base key is
/// computed opaquely, then projected under the given projection rule.
#[derive(Debug, Clone, Copy, PartialEq, Eq, Hash, Structural)]
pub struct ProjDep {
    /// Rule index of the base key the projection derives from.
    pub base: u64,
    /// Index of the projection rule applied to the base value.
    pub proj: u64,
}

/// Compute logic for one plain key, as data: the key reads every key in
/// `deps` (in order), then every projection in `proj_deps` (in order), and
/// its value is `base_value` plus all observed values, with wrapping
/// addition.
#[derive(Debug, Clone, PartialEq, Eq, Hash)]
pub struct KeyRule {
    pub base_value: u64,
    pub deps: Vec<u64>,
    pub proj_deps: Vec<ProjDep>,
}

/// Derivation logic for one projection: the projection of a base value is
/// the base value plus `offset`, with wrapping addition. Projections read
/// only the already-resolved base value; they never issue further
/// sub-computations.
#[derive(Debug, Clone, Copy, PartialEq, Eq, Hash, Structural)]
pub struct ProjRule {
    pub offset: u64,
}

/// Data that is static for the engine's entire lifetime: the rule tables and
/// an opaque bag of global values.
pub struct DiceData {
    rules: Vec<KeyRule>,
    proj_rules: Vec<ProjRule>,
    bag: Vec<u64>,
}

impl DiceData {
    pub closed spec fn spec_rules(self) -> Seq<KeyRule> {
        self.rules@
    }

    pub closed spec fn spec_bag(self) -> Seq<u64> {
        self.bag@
    }

    pub closed spec fn spec_proj_rules(self) -> Seq<ProjRule> {
        self.proj_rules@
    }

    pub open spec fn num_keys(self) -> int {
        self.spec_rules().len() as int
    }

    pub open spec fn num_projs(self) -> int {
        self.spec_proj_rules().len() as int
    }

    /// Every reference a rule makes resolves inside the tables: the rule
    /// graph is closed. Requests are only honoured against closed tables.
    pub open spec fn wf(self) -> bool {
        forall|i: int|
            0 <= i < self.num_keys() ==> #[trigger] self.rule_ok(self.spec_rules()[i])
    }

    pub open spec fn rule_ok(self, r: KeyRule) -> bool {
        &&& forall|j: int| 0 <= j < r.deps@.len() ==> (#[trigger] r.deps@[j]) < self.num_keys()
        &&& forall|j: int|
            0 <= j < r.proj_deps@.len() ==> (#[trigger] r.proj_deps@[j]).base < self.num_keys()
                && r.proj_deps@[j].proj < self.num_projs()
    }

    pub fn new() -> (r: DiceData)
        ensures
            r.spec_rules() =~= Seq::<KeyRule>::empty(),
            r.spec_proj_rules() =~= Seq::<ProjRule>::empty(),
            r.spec_bag() =~= Seq::<u64>::empty(),
    {
        DiceData { rules: Vec::new(), proj_rules: Vec::new(), bag: Vec::new() }
    }

    /// Registers compute logic for a new plain key and returns its rule
    /// index, which is the key's requestable payload. References to keys not
    /// registered yet are allowed; the table only has to be closed by the
    /// time a request is made.
    pub fn add_key_rule(&mut self, r: KeyRule) -> (id: u64)
        requires
            old(self).num_keys() < u64::MAX as int,
        ensures
            final(self).spec_rules() == old(self).spec_rules().push(r),
            final(self).spec_proj_rules() == old(self).spec_proj_rules(),
            final(self).spec_bag() == old(self).spec_bag(),
            id == old(self).num_keys(),
    {
        let id = self.rules.len() as u64;
        self.rules.push(r);
        id
    }

    /// Registers a new projection rule and returns its index.
    pub fn add_proj_rule(&mut self, r: ProjRule) -> (id: u64)
        requires
            old(self).num_projs() < u64::MAX as int,
        ensures
            final(self).spec_proj_rules() == old(self).spec_proj_rules().push(r),
            final(self).spec_rules() == old(self).spec_rules(),
            final(self).spec_bag() == old(self).spec_bag(),
            id == old(self).num_projs(),
    {
        let id = self.proj_rules.len() as u64;
        self.proj_rules.push(r);
        id
    }

    pub fn key_rule(&self, i: u64) -> (r: &KeyRule)
        requires
            i < self.num_keys(),
        ensures
            *r == self.spec_rules()[i as int],
    {
        let _bound: usize = self.rules.len();
        &self.rules[i as usize]
    }

    pub fn proj_rule(&self, j: u64) -> (r: ProjRule)
        requires
            j < self.num_projs(),
        ensures
            r == self.spec_proj_rules()[j as int],
    {
        let _bound: usize = self.proj_rules.len();
        self.proj_rules[j as usize]
    }
}

/// Read-only data fixed for one top-level request; multiple concurrent
/// requests each carry their own.
pub struct UserComputationData {
    pub data: Vec<u64>,
}

impl UserComputationData {
    pub fn new() -> (r: UserComputationData)
        ensures
            r.data@ =~= Seq::<u64>::empty(),
    {
        UserComputationData { data: Vec::new() }
    }
}

} // verus!
