//! Stated laws of the canonicalization engine.

use vstd::prelude::*;

use crate::simplify::REWRITE_BUDGET;
use crate::simplify::rewrite_step;
use crate::simplify::simplified_spec;
use crate::simplify::simplify_fuel;
use crate::term::Term;

verus! {

/// A term is settled when one rewrite step leaves it unchanged: the
/// canonical forms are exactly the fixed points of `rewrite_step`.
pub open spec fn is_settled(t: Term) -> bool {
    rewrite_step(t, (REWRITE_BUDGET - 1) as nat) == t
}

/// A settled term simplifies to itself: the fixed-point loop stops at once.
pub proof fn lemma_settled_fixed(t: Term)
    requires
        is_settled(t),
    ensures
        simplified_spec(t) == t,
{
    let b = REWRITE_BUDGET as nat;
    assert((b - 1) as nat == (REWRITE_BUDGET - 1) as nat);
    assert(simplify_fuel(t, b) == t);
}

/// Simplification is idempotent: `simplify(simplify(t)) == simplify(t)`
/// whenever the canonical form of `t` settles — that is, whenever the
/// fixed-point iteration found a true fixed point rather than running out
/// of its (astronomically large) depth budget.
pub proof fn lemma_simplified_idempotent(t: Term)
    requires
        is_settled(simplified_spec(t)),
    ensures
        simplified_spec(simplified_spec(t)) == simplified_spec(t),
{
    lemma_settled_fixed(simplified_spec(t));
}

impl Term {
    /// Whether `self` is settled: one rewrite step leaves it unchanged, so
    /// by `lemma_settled_fixed` it simplifies to itself.
    pub fn is_canonical(&self) -> (r: bool)
        ensures
            r == is_settled(*self),
    {
        let s = self.rewrite_step_at(REWRITE_BUDGET - 1);
        s.compare(self) == 0
    }
}

} // verus!
