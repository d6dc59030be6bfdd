pub mod attack;

use vstd::prelude::*;

verus! {

/// `a - b`, floored at zero: what `usize::saturating_sub` computes.
pub open spec fn sat_sub(a: nat, b: nat) -> nat {
    if a >= b {
        (a - b) as nat
    } else {
        0
    }
}

/// The four skill slots of the player character.
#[derive(Debug, Clone, Copy, PartialEq, Eq, Structural)]
pub enum Skill {
    Q,
    W,
    E,
    R,
}

/// The sum of `ds`: the time that passes over frames of these lengths.
pub open spec fn total(ds: Seq<nat>) -> nat
    decreases ds.len(),
{
    if ds.len() == 0 {
        0
    } else {
        total(ds.drop_last()) + ds.last()
    }
}

/// The time after `k + 1` frames is the time after `k` frames plus frame `k`.
pub proof fn lemma_total_step(ds: Seq<nat>, k: int)
    requires
        0 <= k < ds.len(),
    ensures
        total(ds.take(k + 1)) == total(ds.take(k)) + ds[k],
{
    assert(ds.take(k + 1).drop_last() == ds.take(k));
}

/// `k * p`, named so that a quantifier over `k` can be triggered by it.
pub open spec fn multiple(k: nat, p: nat) -> nat {
    k * p
}

/// Some multiple of `p` lies in the interval `(after, before]`: a countdown from
/// `before` to `after` passes a boundary of period `p`.
pub open spec fn passes_multiple(after: nat, before: nat, p: nat) -> bool {
    exists|k: nat| after < #[trigger] multiple(k, p) && multiple(k, p) <= before
}

/// A countdown changes its quotient by `p` exactly when it passes a multiple of `p`.
pub proof fn lemma_passes_multiple(after: nat, before: nat, p: nat)
    requires
        after <= before,
        p > 0,
    ensures
        (after / p != before / p) <==> passes_multiple(after, before, p),
{
    let qa = after / p;
    let qb = before / p;
    let ra = after % p;
    let rb = before % p;
    vstd::arithmetic::div_mod::lemma_fundamental_div_mod(after as int, p as int);
    vstd::arithmetic::div_mod::lemma_fundamental_div_mod(before as int, p as int);
    assert(ra < p && rb < p);
    vstd::arithmetic::div_mod::lemma_div_is_ordered(after as int, before as int, p as int);
    if qa != qb {
        assert(multiple(qb, p) <= before) by (nonlinear_arith)
            requires
                before == p * qb + rb,
                multiple(qb, p) == qb * p,
        ;
        assert(after < multiple(qb, p)) by (nonlinear_arith)
            requires
                after == p * qa + ra,
                ra < p,
                qa + 1 <= qb,
                multiple(qb, p) == qb * p,
        ;
    }
    if passes_multiple(after, before, p) {
        let k = choose|k: nat| after < #[trigger] multiple(k, p) && multiple(k, p) <= before;
        assert(qa < k) by (nonlinear_arith)
            requires
                after == p * qa + ra,
                after < k * p,
                p > 0,
        ;
        assert(k <= qb) by (nonlinear_arith)
            requires
                before == p * qb + rb,
                rb < p,
                k * p <= before,
                p > 0,
        ;
    }
}

} // verus!
