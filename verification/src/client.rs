//! Client-side helpers around the engine: argument sanitizing for the kill
//! command, and the constraints a daemon advertises so clients can decide
//! whether to reuse it.

use vstd::prelude::*;

verus! {

/// The argument vector a command was invoked with, before and after
/// expansion of argument files.
#[derive(Debug, Clone, PartialEq, Eq)]
pub struct Argv {
    pub argv: Vec<String>,
    pub expanded_argv: Vec<String>,
}

/// An argument vector that is safe to log: either sanitized, or marked as
/// needing no sanitizing.
#[derive(Debug, Clone, PartialEq, Eq)]
pub struct SanitizedArgv {
    pub argv: Vec<String>,
    pub expanded_argv: Vec<String>,
}

impl Argv {
    pub fn no_need_to_sanitize(self) -> (r: SanitizedArgv)
        ensures
            r.argv == self.argv,
            r.expanded_argv == self.expanded_argv,
    {
        let Argv { argv, expanded_argv } = self;
        SanitizedArgv { argv, expanded_argv }
    }
}

/// Kills the daemon. The process handling happens at the boundary; the
/// command's own logic is that its arguments carry nothing to sanitize.
#[derive(Debug, Clone, PartialEq, Eq)]
pub struct KillCommand {}

impl KillCommand {
    pub fn sanitize_argv(&self, argv: Argv) -> (r: SanitizedArgv)
        ensures
            r.argv == argv.argv,
            r.expanded_argv == argv.expanded_argv,
    {
        argv.no_need_to_sanitize()
    }
}

/// The version identifier this build advertises.
pub open spec fn spec_version() -> Seq<char> {
    "dice-dev"@
}

/// The unique version id the daemon was built with.
pub fn version() -> (r: String)
    ensures
        r@ == spec_version(),
{
    "dice-dev".to_owned()
}

/// The user-level version marker: a CI sandbox id wins; otherwise the
/// first CI identifier that reports a value. Daemons are restarted between
/// CI jobs that do not clean up after themselves.
#[verifier::loop_isolation(false)]
pub fn user_version(sandcastle_id: Option<String>, ci_identifiers: Vec<Option<String>>) -> (r:
    Option<String>)
    ensures
        sandcastle_id matches Some(id) ==> r == Some(id),
        sandcastle_id is None ==> match r {
            Some(v) => exists|i: int|
                0 <= i < ci_identifiers@.len() && #[trigger] ci_identifiers@[i] == Some(v) && (
                forall|j: int| 0 <= j < i ==> (#[trigger] ci_identifiers@[j]) is None),
            None => forall|j: int|
                0 <= j < ci_identifiers@.len() ==> (#[trigger] ci_identifiers@[j]) is None,
        },
{
    match sandcastle_id {
        Some(id) => Some(id),
        None => {
            let n = ci_identifiers.len();
            let mut i: usize = 0;
            while i < n
                invariant
                    i <= n,
                    n == ci_identifiers@.len(),
                    forall|j: int| 0 <= j < i ==> (#[trigger] ci_identifiers@[j]) is None,
                decreases n - i,
            {
                match &ci_identifiers[i] {
                    Some(v) => {
                        let out = v.clone();
                        proof {
                            assert(ci_identifiers@[i as int] == Some(out));
                        }
                        return Some(out);
                    },
                    None => {},
                }
                i = i + 1;
            }
            None
        },
    }
}

} // verus!
