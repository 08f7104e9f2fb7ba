//! Visibility specifications for targets.
//!
//! A target's visibility spec says who may depend on it: everyone
//! (`Public`), or only targets matched by an explicit pattern list. Targets
//! in the same package ignore each other's visibility specs; that rule
//! lives with the caller.

use vstd::prelude::*;

verus! {

/// A parsed target label. The label's structure (cell, package, name) is
/// resolved at the boundary; visibility logic needs only its identity.
#[derive(Debug, Clone, PartialEq, Eq, Hash)]
pub struct TargetLabel {
    pub text: String,
}

/// A parsed visibility pattern. Parsing happens at the boundary; a pattern
/// admits exactly the labels it names.
#[derive(Debug, Clone, PartialEq, Eq, Hash)]
pub struct ParsedPattern {
    pub text: String,
}

impl ParsedPattern {
    pub open spec fn spec_matches(self, target: TargetLabel) -> bool {
        self.text@ == target.text@
    }

    pub fn matches(&self, target: &TargetLabel) -> (r: bool)
        ensures
            r == self.spec_matches(*target),
    {
        self.text == target.text
    }
}

#[derive(Debug, Clone, PartialEq, Eq)]
pub enum VisibilityError {
    NotVisibleTo(TargetLabel, TargetLabel),
}

impl VisibilityError {
    /// A plain rendering of the error for callers that report it.
    pub fn describe(&self) -> (r: String)
        ensures
            r@.len() > 0,
    {
        let s = match self {
            VisibilityError::NotVisibleTo(_, _) => "target is not visible to requesting target",
        };
        let r = s.to_owned();
        proof {
            reveal_strlit("target is not visible to requesting target");
        }
        r
    }
}

#[derive(Debug, Clone, PartialEq, Eq, Hash)]
pub struct VisibilityPattern(pub ParsedPattern);

impl VisibilityPattern {
    pub fn testing_new(pattern: String) -> (r: VisibilityPattern)
        ensures
            r.0.text == pattern,
    {
        VisibilityPattern(ParsedPattern { text: pattern })
    }
}

/// The marker pattern admitting every requester.
pub fn public_visibility_token() -> (r: String)
    ensures
        r@ == spec_public_token(),
{
    proof {
        reveal_strlit("PUBLIC");
    }
    "PUBLIC".to_owned()
}

pub open spec fn spec_public_token() -> Seq<char> {
    "PUBLIC"@
}

/// The visibility spec of a target: public, or visible only to targets
/// matched by the given patterns (an empty list — the default — makes the
/// target visible to no one outside its package).
#[derive(Debug, Clone, PartialEq, Eq, Hash)]
pub enum VisibilitySpecification {
    Public,
    VisibleTo(Vec<VisibilityPattern>),
}

impl VisibilitySpecification {
    pub open spec fn spec_is_visible_to(self, target: TargetLabel) -> bool {
        match self {
            VisibilitySpecification::Public => true,
            VisibilitySpecification::VisibleTo(patterns) => exists|i: int|
                0 <= i < patterns@.len() && (#[trigger] patterns@[i]).0.spec_matches(target),
        }
    }

    /// Whether `target` may depend on a target carrying this spec.
    #[verifier::loop_isolation(false)]
    pub fn is_visible_to(&self, target: &TargetLabel) -> (r: bool)
        ensures
            r == self.spec_is_visible_to(*target),
    {
        match self {
            VisibilitySpecification::Public => true,
            VisibilitySpecification::VisibleTo(patterns) => {
                let n = patterns.len();
                let mut i: usize = 0;
                while i < n
                    invariant
                        i <= n,
                        n == patterns@.len(),
                        forall|j: int| 0 <= j < i ==> !(#[trigger] patterns@[j]).0.spec_matches(
                            *target,
                        ),
                    decreases n - i,
                {
                    if patterns[i].0.matches(target) {
                        proof {
                            assert(patterns@[i as int].0.spec_matches(*target));
                        }
                        return true;
                    }
                    i = i + 1;
                }
                false
            },
        }
    }

    /// The union of two specs: public absorbs everything; two pattern
    /// lists concatenate, keeping order.
    pub fn extend_with(&self, other: &VisibilitySpecification) -> (r: VisibilitySpecification)
        ensures
            match (self, other) {
                (VisibilitySpecification::VisibleTo(a), VisibilitySpecification::VisibleTo(b)) => (
                r matches VisibilitySpecification::VisibleTo(c) && c@ == a@ + b@),
                _ => r == VisibilitySpecification::Public,
            },
    {
        match (self, other) {
            (VisibilitySpecification::VisibleTo(a), VisibilitySpecification::VisibleTo(b)) => {
                let mut c: Vec<VisibilityPattern> = Vec::new();
                let na = a.len();
                let mut i: usize = 0;
                while i < na
                    invariant
                        i <= na,
                        na == a@.len(),
                        c@ == a@.take(i as int),
                    decreases na - i,
                {
                    c.push(clone_pattern(&a[i]));
                    proof {
                        assert(c@ =~= a@.take(i + 1 as int));
                    }
                    i = i + 1;
                }
                let nb = b.len();
                let mut j: usize = 0;
                while j < nb
                    invariant
                        j <= nb,
                        nb == b@.len(),
                        c@ == a@.take(na as int) + b@.take(j as int),
                    decreases nb - j,
                {
                    c.push(clone_pattern(&b[j]));
                    proof {
                        assert(c@ =~= a@.take(na as int) + b@.take(j + 1 as int));
                    }
                    j = j + 1;
                }
                proof {
                    assert(a@.take(na as int) =~= a@);
                    assert(b@.take(nb as int) =~= b@);
                    assert(c@ =~= a@ + b@);
                }
                VisibilitySpecification::VisibleTo(c)
            },
            _ => VisibilitySpecification::Public,
        }
    }

    /// Builds a spec from raw pattern strings: the public token anywhere
    /// makes the whole spec public, else every string parses as a pattern.
    #[verifier::loop_isolation(false)]
    pub fn testing_parse(patterns: Vec<String>) -> (r: VisibilitySpecification)
        ensures
            (exists|i: int|
                0 <= i < patterns@.len() && (#[trigger] patterns@[i])@ == spec_public_token()) ==> r
                == VisibilitySpecification::Public,
            !(exists|i: int|
                0 <= i < patterns@.len() && (#[trigger] patterns@[i])@ == spec_public_token()) ==> (
            r matches VisibilitySpecification::VisibleTo(ps) && ps@.len() == patterns@.len()
                && (forall|i: int|
                0 <= i < patterns@.len() ==> (#[trigger] ps@[i]).0.text == patterns@[i])),
    {
        let public_token = public_visibility_token();
        let n = patterns.len();
        let mut i: usize = 0;
        let mut ps: Vec<VisibilityPattern> = Vec::new();
        while i < n
            invariant
                i <= n,
                n == patterns@.len(),
                ps@.len() == i,
                forall|j: int| 0 <= j < i ==> !((#[trigger] patterns@[j])@ == spec_public_token()),
                forall|j: int| 0 <= j < i ==> (#[trigger] ps@[j]).0.text == patterns@[j],
                public_token@ == spec_public_token(),
            decreases n - i,
        {
            if patterns[i] == public_token {
                proof {
                    assert(patterns@[i as int]@ == spec_public_token());
                }
                return VisibilitySpecification::Public;
            }
            ps.push(VisibilityPattern(ParsedPattern { text: patterns[i].clone() }));
            i = i + 1;
        }
        VisibilitySpecification::VisibleTo(ps)
    }
}

impl Default for VisibilitySpecification {
    /// A target without a visibility spec is visible to no one outside its
    /// package.
    fn default() -> (r: VisibilitySpecification)
        ensures
            r matches VisibilitySpecification::VisibleTo(v) && v@.len() == 0,
    {
        VisibilitySpecification::VisibleTo(Vec::new())
    }
}

/// What a target may itself depend on: everything, or only targets matched
/// by the given patterns.
#[derive(Debug, Clone, PartialEq, Eq, Hash)]
pub enum WithinViewSpecification {
    Public,
    VisibleTo(Vec<VisibilityPattern>),
}

impl WithinViewSpecification {
    /// The union of two within-view specs.
    pub fn extend_with(&self, other: &WithinViewSpecification) -> (r: WithinViewSpecification)
        ensures
            match (self, other) {
                (WithinViewSpecification::VisibleTo(a), WithinViewSpecification::VisibleTo(b)) => (
                r matches WithinViewSpecification::VisibleTo(c) && c@ == a@ + b@),
                _ => r == WithinViewSpecification::Public,
            },
    {
        match (self, other) {
            (WithinViewSpecification::VisibleTo(a), WithinViewSpecification::VisibleTo(b)) => {
                let va = VisibilitySpecification::VisibleTo(clone_patterns(a));
                let vb = VisibilitySpecification::VisibleTo(clone_patterns(b));
                match va.extend_with(&vb) {
                    VisibilitySpecification::VisibleTo(c) => WithinViewSpecification::VisibleTo(
                        c,
                    ),
                    VisibilitySpecification::Public => {
                        proof {
                            assert(false);
                        }
                        WithinViewSpecification::Public
                    },
                }
            },
            _ => WithinViewSpecification::Public,
        }
    }
}

impl Default for WithinViewSpecification {
    /// A target without a within-view spec may depend on everything.
    fn default() -> (r: WithinViewSpecification)
        ensures
            r == WithinViewSpecification::Public,
    {
        WithinViewSpecification::Public
    }
}

/// Copies one pattern, field by field.
fn clone_pattern(p: &VisibilityPattern) -> (r: VisibilityPattern)
    ensures
        r == *p,
{
    VisibilityPattern(ParsedPattern { text: p.0.text.clone() })
}

/// Copies a pattern list.
fn clone_patterns(a: &Vec<VisibilityPattern>) -> (r: Vec<VisibilityPattern>)
    ensures
        r@ == a@,
{
    let mut c: Vec<VisibilityPattern> = Vec::new();
    let n = a.len();
    let mut i: usize = 0;
    while i < n
        invariant
            i <= n,
            n == a@.len(),
            c@ == a@.take(i as int),
        decreases n - i,
    {
        c.push(clone_pattern(&a[i]));
        proof {
            assert(c@ =~= a@.take(i + 1 as int));
        }
        i = i + 1;
    }
    proof {
        assert(a@.take(n as int) =~= a@);
    }
    c
}

/// Accumulates visibility and within-view patterns from an attribute list:
/// the public token anywhere wins; otherwise patterns collect in order.
pub struct VisibilityWithinViewBuilder {
    cap: usize,
    seen_public: bool,
    patterns: Option<Vec<VisibilityPattern>>,
}

impl VisibilityWithinViewBuilder {
    pub closed spec fn spec_seen_public(self) -> bool {
        self.seen_public
    }

    pub closed spec fn spec_patterns(self) -> Option<Vec<VisibilityPattern>> {
        self.patterns
    }

    pub fn with_capacity(cap: usize) -> (r: VisibilityWithinViewBuilder)
        ensures
            !r.spec_seen_public(),
            r.spec_patterns() is None,
    {
        VisibilityWithinViewBuilder { cap, seen_public: false, patterns: None }
    }

    pub fn add_public(&mut self)
        ensures
            final(self).spec_seen_public(),
            final(self).spec_patterns() == old(self).spec_patterns(),
    {
        self.seen_public = true;
    }

    /// Adds one pattern; after the public token was seen, patterns are
    /// irrelevant and dropped.
    pub fn add(&mut self, pattern: VisibilityPattern)
        ensures
            final(self).spec_seen_public() == old(self).spec_seen_public(),
            old(self).spec_seen_public() ==> final(self).spec_patterns() == old(
                self,
            ).spec_patterns(),
            !old(self).spec_seen_public() ==> (final(self).spec_patterns() matches Some(ps)
                && ps@ == (match old(self).spec_patterns() {
                Some(prev) => prev@.push(pattern),
                None => seq![pattern],
            })),
    {
        if !self.seen_public {
            match &mut self.patterns {
                Some(ps) => {
                    ps.push(pattern);
                },
                None => {
                    let mut ps: Vec<VisibilityPattern> = Vec::with_capacity(self.cap);
                    ps.push(pattern);
                    self.patterns = Some(ps);
                    proof {
                        assert(self.patterns matches Some(v) && v@ =~= seq![pattern]);
                    }
                },
            }
        }
    }

    pub fn build_visibility(self) -> (r: VisibilitySpecification)
        ensures
            self.spec_seen_public() ==> r == VisibilitySpecification::Public,
            !self.spec_seen_public() ==> (r matches VisibilitySpecification::VisibleTo(ps) && ps@
                == (match self.spec_patterns() {
                Some(prev) => prev@,
                None => Seq::<VisibilityPattern>::empty(),
            })),
    {
        if self.seen_public {
            VisibilitySpecification::Public
        } else {
            match self.patterns {
                Some(ps) => VisibilitySpecification::VisibleTo(ps),
                None => {
                    let ps: Vec<VisibilityPattern> = Vec::new();
                    proof {
                        assert(ps@ =~= Seq::<VisibilityPattern>::empty());
                    }
                    VisibilitySpecification::VisibleTo(ps)
                },
            }
        }
    }

    /// An absent pattern list means an unrestricted view.
    pub fn build_within_view(self) -> (r: WithinViewSpecification)
        ensures
            self.spec_seen_public() ==> r == WithinViewSpecification::Public,
            !self.spec_seen_public() ==> (match self.spec_patterns() {
                Some(prev) => r matches WithinViewSpecification::VisibleTo(ps) && ps@ == prev@,
                None => r == WithinViewSpecification::Public,
            }),
    {
        if self.seen_public {
            WithinViewSpecification::Public
        } else {
            match self.patterns {
                None => WithinViewSpecification::Public,
                Some(ps) => WithinViewSpecification::VisibleTo(ps),
            }
        }
    }
}

} // verus!
