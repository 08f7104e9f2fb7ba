//! Keys that identify actions and the deferred work they come from.
//!
//! An action is registered as a deferred computation; its key names the
//! deferred entry and, through it, the base key (a configured target, an
//! anonymous target, or a bxl invocation) that owns it.

use vstd::prelude::*;

use crate::visibility::TargetLabel;

verus! {

/// A target label together with the configuration it was configured for.
#[derive(Debug, Clone, PartialEq, Eq, Hash)]
pub struct ConfiguredTargetLabel {
    pub target: TargetLabel,
    pub cfg: u64,
}

/// The base key a deferred computation hangs off: a configured target, an
/// anonymous target, or a bxl invocation, each named by its dense identity.
#[derive(Debug, Clone, PartialEq, Eq, Hash)]
pub enum BaseDeferredKey {
    TargetLabel(ConfiguredTargetLabel),
    AnonTarget(u64),
    BxlLabel(u64),
}

/// The same key in the representation the wider engine passes around.
#[derive(Debug, Clone, PartialEq, Eq, Hash)]
pub enum BaseDeferredKeyDyn {
    TargetLabel(ConfiguredTargetLabel),
    AnonTarget(u64),
    BxlLabel(u64),
}

impl BaseDeferredKey {
    pub fn into_dyn(self) -> (r: BaseDeferredKeyDyn)
        ensures
            match self {
                BaseDeferredKey::TargetLabel(l) => r == BaseDeferredKeyDyn::TargetLabel(l),
                BaseDeferredKey::AnonTarget(a) => r == BaseDeferredKeyDyn::AnonTarget(a),
                BaseDeferredKey::BxlLabel(b) => r == BaseDeferredKeyDyn::BxlLabel(b),
            },
    {
        match self {
            BaseDeferredKey::TargetLabel(label) => BaseDeferredKeyDyn::TargetLabel(label),
            BaseDeferredKey::AnonTarget(target) => BaseDeferredKeyDyn::AnonTarget(target),
            BaseDeferredKey::BxlLabel(label) => BaseDeferredKeyDyn::BxlLabel(label),
        }
    }

    pub fn from_dyn(key_dyn: BaseDeferredKeyDyn) -> (r: BaseDeferredKey)
        ensures
            match key_dyn {
                BaseDeferredKeyDyn::TargetLabel(l) => r == BaseDeferredKey::TargetLabel(l),
                BaseDeferredKeyDyn::AnonTarget(a) => r == BaseDeferredKey::AnonTarget(a),
                BaseDeferredKeyDyn::BxlLabel(b) => r == BaseDeferredKey::BxlLabel(b),
            },
    {
        match key_dyn {
            BaseDeferredKeyDyn::TargetLabel(label) => BaseDeferredKey::TargetLabel(label),
            BaseDeferredKeyDyn::AnonTarget(target) => BaseDeferredKey::AnonTarget(target),
            BaseDeferredKeyDyn::BxlLabel(label) => BaseDeferredKey::BxlLabel(label),
        }
    }
}

/// Identity of one deferred computation: the base key that registered it
/// and its index among that base's deferred entries.
#[derive(Debug, Clone, PartialEq, Eq, Hash)]
pub struct DeferredKey {
    pub owner: BaseDeferredKey,
    pub id: u64,
}

impl DeferredKey {
    pub fn owner(&self) -> (r: &BaseDeferredKey)
        ensures
            *r == self.owner,
    {
        &self.owner
    }
}

/// A key to look up an action from an analysis result. Actions are
/// registered as deferred computations, so this wraps the deferred key.
#[derive(Debug, Clone, PartialEq, Eq, Hash)]
pub struct ActionKey(DeferredKey);

impl ActionKey {
    pub closed spec fn spec_deferred_key(self) -> DeferredKey {
        self.0
    }

    pub fn unchecked_new(key: DeferredKey) -> (r: ActionKey)
        ensures
            r.spec_deferred_key() == key,
    {
        ActionKey(key)
    }

    pub fn deferred_key(&self) -> (r: &DeferredKey)
        ensures
            *r == self.spec_deferred_key(),
    {
        &self.0
    }

    pub fn owner(&self) -> (r: &BaseDeferredKey)
        ensures
            *r == self.spec_deferred_key().owner,
    {
        self.deferred_key().owner()
    }
}

} // verus!
