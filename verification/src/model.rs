//! The mathematical model of evaluation.
//!
//! `eval_key_pure` says what value a key's compute logic denotes under a
//! rule table, independent of caching, request order, or which caller asks:
//! a key's value is its rule's base value plus the values of its
//! dependencies and projections, in rule order, with wrapping addition. The
//! `fuel` parameter bounds recursion depth; `evals_to` abstracts it away.
//!
//! Every valid value the engine stores or returns is pinned to this model,
//! and the model admits at most one value per key
//! ([`lemma_evals_to_unique`]), which is what makes demand-driven
//! memoization across many callers sound.

use vstd::prelude::*;

use crate::data::DiceData;
use crate::data::ProjDep;

verus! {

/// Addition modulo 2^64: the combiner for observed values.
pub open spec fn wadd(a: u64, b: u64) -> u64 {
    if a + b > u64::MAX {
        (a + b - 0x1_0000_0000_0000_0000) as u64
    } else {
        (a + b) as u64
    }
}

/// Exec counterpart of [`wadd`].
pub fn wrap_add(a: u64, b: u64) -> (r: u64)
    ensures
        r == wadd(a, b),
{
    a.wrapping_add(b)
}

/// The value of the projection with rule `j` over a base value `bv`.
pub open spec fn proj_value(d: DiceData, j: int, bv: u64) -> u64 {
    wadd(bv, d.spec_proj_rules()[j].offset)
}

/// The value key `k` denotes, if its dependency chains resolve within
/// `fuel` nested requests.
pub open spec fn eval_key_pure(d: DiceData, k: int, fuel: nat) -> Option<u64>
    decreases fuel, 0int, 0int,
{
    if fuel == 0 {
        None
    } else if !(0 <= k < d.num_keys()) {
        None
    } else {
        let r = d.spec_rules()[k];
        match eval_deps_sum(d, r.deps@, r.base_value, (fuel - 1) as nat) {
            Some(s1) => eval_proj_sum(d, r.proj_deps@, s1, (fuel - 1) as nat),
            None => None,
        }
    }
}

/// Folds the values of `deps` into `acc`, left to right.
pub open spec fn eval_deps_sum(d: DiceData, deps: Seq<u64>, acc: u64, fuel: nat) -> Option<u64>
    decreases fuel, 1int, deps.len(),
{
    if deps.len() == 0 {
        Some(acc)
    } else {
        match eval_key_pure(d, deps[0] as int, fuel) {
            Some(v) => eval_deps_sum(d, deps.drop_first(), wadd(acc, v), fuel),
            None => None,
        }
    }
}

/// Folds the values of the projections in `pdeps` into `acc`, left to
/// right; each projection's value derives from its base key's value alone.
pub open spec fn eval_proj_sum(d: DiceData, pdeps: Seq<ProjDep>, acc: u64, fuel: nat) -> Option<
    u64,
>
    decreases fuel, 1int, pdeps.len(),
{
    if pdeps.len() == 0 {
        Some(acc)
    } else {
        match eval_key_pure(d, pdeps[0].base as int, fuel) {
            Some(bv) => eval_proj_sum(
                d,
                pdeps.drop_first(),
                wadd(acc, proj_value(d, pdeps[0].proj as int, bv)),
                fuel,
            ),
            None => None,
        }
    }
}

/// Key `k` denotes `v`: some recursion depth suffices.
pub open spec fn evals_to(d: DiceData, k: int, v: u64) -> bool {
    exists|fuel: nat| eval_key_pure(d, k, fuel) == Some(v)
}

/// The projection with rule `j` over base key `b` denotes `pv`.
pub open spec fn proj_evals_to(d: DiceData, b: int, j: int, pv: u64) -> bool {
    exists|bv: u64| evals_to(d, b, bv) && pv == proj_value(d, j, bv)
}

/// Spending more fuel never changes a resolved value.
pub proof fn lemma_eval_key_mono(d: DiceData, k: int, f1: nat, f2: nat)
    requires
        f1 <= f2,
        eval_key_pure(d, k, f1) is Some,
    ensures
        eval_key_pure(d, k, f2) == eval_key_pure(d, k, f1),
    decreases f1, 0int, 0int,
{
    let r = d.spec_rules()[k];
    match eval_deps_sum(d, r.deps@, r.base_value, (f1 - 1) as nat) {
        Some(s1) => {
            lemma_deps_sum_mono(d, r.deps@, r.base_value, (f1 - 1) as nat, (f2 - 1) as nat);
            lemma_proj_sum_mono(d, r.proj_deps@, s1, (f1 - 1) as nat, (f2 - 1) as nat);
        },
        None => {},
    }
}

pub proof fn lemma_deps_sum_mono(d: DiceData, deps: Seq<u64>, acc: u64, f1: nat, f2: nat)
    requires
        f1 <= f2,
        eval_deps_sum(d, deps, acc, f1) is Some,
    ensures
        eval_deps_sum(d, deps, acc, f2) == eval_deps_sum(d, deps, acc, f1),
    decreases f1, 1int, deps.len(),
{
    if deps.len() > 0 {
        match eval_key_pure(d, deps[0] as int, f1) {
            Some(v) => {
                lemma_eval_key_mono(d, deps[0] as int, f1, f2);
                lemma_deps_sum_mono(d, deps.drop_first(), wadd(acc, v), f1, f2);
            },
            None => {},
        }
    }
}

pub proof fn lemma_proj_sum_mono(d: DiceData, pdeps: Seq<ProjDep>, acc: u64, f1: nat, f2: nat)
    requires
        f1 <= f2,
        eval_proj_sum(d, pdeps, acc, f1) is Some,
    ensures
        eval_proj_sum(d, pdeps, acc, f2) == eval_proj_sum(d, pdeps, acc, f1),
    decreases f1, 1int, pdeps.len(),
{
    if pdeps.len() > 0 {
        match eval_key_pure(d, pdeps[0].base as int, f1) {
            Some(bv) => {
                lemma_eval_key_mono(d, pdeps[0].base as int, f1, f2);
                lemma_proj_sum_mono(
                    d,
                    pdeps.drop_first(),
                    wadd(acc, proj_value(d, pdeps[0].proj as int, bv)),
                    f1,
                    f2,
                );
            },
            None => {},
        }
    }
}

/// The evaluation relation admits at most one value per key: memoization
/// hands every requester the value the key denotes, never a stale or
/// request-dependent one.
pub proof fn lemma_evals_to_unique(d: DiceData, k: int, v1: u64, v2: u64)
    requires
        evals_to(d, k, v1),
        evals_to(d, k, v2),
    ensures
        v1 == v2,
{
    let f1 = choose|f: nat| eval_key_pure(d, k, f) == Some(v1);
    let f2 = choose|f: nat| eval_key_pure(d, k, f) == Some(v2);
    if f1 <= f2 {
        lemma_eval_key_mono(d, k, f1, f2);
    } else {
        lemma_eval_key_mono(d, k, f2, f1);
    }
}

/// Projections likewise admit at most one value per (base, rule) pair.
pub proof fn lemma_proj_evals_to_unique(d: DiceData, b: int, j: int, v1: u64, v2: u64)
    requires
        proj_evals_to(d, b, j, v1),
        proj_evals_to(d, b, j, v2),
    ensures
        v1 == v2,
{
    let bv1 = choose|bv: u64| evals_to(d, b, bv) && v1 == proj_value(d, j, bv);
    let bv2 = choose|bv: u64| evals_to(d, b, bv) && v2 == proj_value(d, j, bv);
    lemma_evals_to_unique(d, b, bv1, bv2);
}

/// Dedup across callers: when a key requested by any number of independent
/// callers at one version resolves for two of them, both observe the same
/// value — the one the key denotes.
pub proof fn lemma_all_callers_observe_one_value(d: DiceData, k: u64, v1: u64, v2: u64)
    requires
        evals_to(d, k as int, v1),
        evals_to(d, k as int, v2),
    ensures
        v1 == v2,
{
    lemma_evals_to_unique(d, k as int, v1, v2);
}

/// Requesting many keys at once returns the same values, position by
/// position, as requesting each in sequence: every resolved position is
/// pinned to the value its key denotes, however the requests were grouped.
pub proof fn lemma_many_matches_sequential(d: DiceData, keys: Seq<u64>, a: Seq<u64>, b: Seq<u64>)
    requires
        a.len() == keys.len(),
        b.len() == keys.len(),
        forall|i: int|
            0 <= i < keys.len() ==> evals_to(d, #[trigger] keys[i] as int, a[i]) && evals_to(
                d,
                keys[i] as int,
                b[i],
            ),
    ensures
        a =~= b,
{
    assert forall|i: int| 0 <= i < keys.len() implies a[i] == b[i] by {
        lemma_evals_to_unique(d, keys[i] as int, a[i], b[i]);
    }
}

/// Appending one dependency extends a resolved fold by that dependency's
/// value.
pub proof fn lemma_deps_sum_push(
    d: DiceData,
    deps: Seq<u64>,
    x: u64,
    acc: u64,
    s: u64,
    v: u64,
    fuel: nat,
)
    requires
        eval_deps_sum(d, deps, acc, fuel) == Some(s),
        eval_key_pure(d, x as int, fuel) == Some(v),
    ensures
        eval_deps_sum(d, deps.push(x), acc, fuel) == Some(wadd(s, v)),
    decreases deps.len(),
{
    if deps.len() == 0 {
        assert(s == acc);
        assert(deps.push(x).drop_first() =~= Seq::<u64>::empty());
        assert(deps.push(x)[0] == x);
        assert(eval_deps_sum(d, deps.push(x), acc, fuel) == eval_deps_sum(
            d,
            Seq::<u64>::empty(),
            wadd(acc, v),
            fuel,
        ));
        assert(eval_deps_sum(d, Seq::<u64>::empty(), wadd(acc, v), fuel) == Some(wadd(acc, v)));
    } else {
        match eval_key_pure(d, deps[0] as int, fuel) {
            Some(hv) => {
                assert(deps.push(x)[0] == deps[0]);
                assert(deps.push(x).drop_first() =~= deps.drop_first().push(x));
                lemma_deps_sum_push(d, deps.drop_first(), x, wadd(acc, hv), s, v, fuel);
                assert(eval_deps_sum(d, deps.push(x), acc, fuel) == eval_deps_sum(
                    d,
                    deps.drop_first().push(x),
                    wadd(acc, hv),
                    fuel,
                ));
            },
            None => {},
        }
    }
}

/// Appending one projection extends a resolved fold by that projection's
/// value, derived from its base key's value.
pub proof fn lemma_proj_sum_push(
    d: DiceData,
    pdeps: Seq<ProjDep>,
    pd: ProjDep,
    acc: u64,
    s: u64,
    bv: u64,
    fuel: nat,
)
    requires
        eval_proj_sum(d, pdeps, acc, fuel) == Some(s),
        eval_key_pure(d, pd.base as int, fuel) == Some(bv),
    ensures
        eval_proj_sum(d, pdeps.push(pd), acc, fuel) == Some(
            wadd(s, proj_value(d, pd.proj as int, bv)),
        ),
    decreases pdeps.len(),
{
    if pdeps.len() == 0 {
        assert(s == acc);
        assert(pdeps.push(pd).drop_first() =~= Seq::<ProjDep>::empty());
        assert(pdeps.push(pd)[0] == pd);
        assert(eval_proj_sum(d, pdeps.push(pd), acc, fuel) == eval_proj_sum(
            d,
            Seq::<ProjDep>::empty(),
            wadd(acc, proj_value(d, pd.proj as int, bv)),
            fuel,
        ));
        assert(eval_proj_sum(
            d,
            Seq::<ProjDep>::empty(),
            wadd(acc, proj_value(d, pd.proj as int, bv)),
            fuel,
        ) == Some(wadd(acc, proj_value(d, pd.proj as int, bv))));
    } else {
        match eval_key_pure(d, pdeps[0].base as int, fuel) {
            Some(hbv) => {
                assert(pdeps.push(pd)[0] == pdeps[0]);
                assert(pdeps.push(pd).drop_first() =~= pdeps.drop_first().push(pd));
                lemma_proj_sum_push(
                    d,
                    pdeps.drop_first(),
                    pd,
                    wadd(acc, proj_value(d, pdeps[0].proj as int, hbv)),
                    s,
                    bv,
                    fuel,
                );
                assert(eval_proj_sum(d, pdeps.push(pd), acc, fuel) == eval_proj_sum(
                    d,
                    pdeps.drop_first().push(pd),
                    wadd(acc, proj_value(d, pdeps[0].proj as int, hbv)),
                    fuel,
                ));
            },
            None => {},
        }
    }
}


} // verus!
