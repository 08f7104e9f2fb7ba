//! Key identity and interning.
//!
//! Structural key values are mapped to small dense integer identities by the
//! [`KeyIndex`] interner; every other component uses the dense identity as its
//! map key. Equal structural keys always receive the same identity within one
//! interner's lifetime, and distinct keys receive distinct identities.

use vstd::prelude::*;

verus! {

/// Dense integer identity for an interned key.
#[derive(Debug, Clone, Copy, PartialEq, Eq, Hash, Structural)]
pub struct DiceKey {
    pub index: usize,
}

/// Identity of the key on whose behalf a sub-computation is requested, or
/// `Root` for a true top-level request.
#[derive(Debug, Clone, Copy, PartialEq, Eq, Hash, Structural)]
pub enum ParentKey {
    Root,
    Key(DiceKey),
}

/// Structural identity of a requestable key: either a plain key value (the
/// index of its rule in the global rule table), or a projection of an
/// already-interned base key under a projection rule.
#[derive(Debug, Clone, Copy, PartialEq, Eq, Hash, Structural)]
pub enum DiceKeyErased {
    Key { payload: u64 },
    Projection { base: DiceKey, proj: u64 },
}

/// The key interner: assigns dense identities to structural key values.
///
/// No eviction happens during the interner's lifetime; the table grows by one
/// entry per distinct structural key ever requested.
pub struct KeyIndex {
    keys: Vec<DiceKeyErased>,
}

impl View for KeyIndex {
    type V = Seq<DiceKeyErased>;

    closed spec fn view(&self) -> Seq<DiceKeyErased> {
        self.keys@
    }
}

impl KeyIndex {
    /// No structural key value occurs twice: identities are unambiguous.
    pub open spec fn wf(self) -> bool {
        self@.no_duplicates()
    }

    pub fn new() -> (r: KeyIndex)
        ensures
            r.wf(),
            r@ =~= Seq::<DiceKeyErased>::empty(),
    {
        KeyIndex { keys: Vec::new() }
    }

    pub fn len(&self) -> (r: usize)
        ensures
            r == self@.len(),
    {
        self.keys.len()
    }

    /// The structural key behind a dense identity.
    pub fn get(&self, k: DiceKey) -> (r: DiceKeyErased)
        requires
            (k.index as int) < self@.len(),
        ensures
            r == self@[k.index as int],
    {
        self.keys[k.index as usize]
    }

    /// Interns a structural key value: the same value always receives the
    /// same dense identity, a new value is appended at the end.
    pub fn index(&mut self, k: DiceKeyErased) -> (r: DiceKey)
        requires
            old(self).wf(),
        ensures
            final(self).wf(),
            old(self)@.is_prefix_of(final(self)@),
            (r.index as int) < final(self)@.len(),
            final(self)@[r.index as int] == k,
            old(self)@.contains(k) ==> final(self)@ == old(self)@,
            !old(self)@.contains(k) ==> final(self)@ == old(self)@.push(k),
            forall|i: int|
                0 <= i < final(self)@.len() ==> (final(self)@[i] == k <==> i == r.index as int),
    {
        let n = self.keys.len();
        let mut i: usize = 0;
        while i < n
            invariant
                n == self@.len(),
                i <= n,
                self.wf(),
                forall|j: int| 0 <= j < i ==> self@[j] != k,
            decreases n - i,
        {
            if self.keys[i] == k {
                return DiceKey { index: i };
            }
            i = i + 1;
        }
        self.keys.push(k);
        proof {
            assert forall|i: int, j: int|
                0 <= i < self@.len() && 0 <= j < self@.len() && i != j implies self@[i]
                != self@[j] by {
                assert(forall|l: int| 0 <= l < n ==> self@[l] == old(self)@[l]);
            }
        }
        DiceKey { index: n }
    }
}

} // verus!
