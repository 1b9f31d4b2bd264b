//! Differentiation with respect to the variable, by structural recursion
//! following the standard calculus rules, with every sub-result passed
//! through simplification.

use vstd::prelude::*;

use crate::simplify::REWRITE_BUDGET;
use crate::simplify::simplified_spec;
use crate::term::Term;
use crate::term::mk_add;
use crate::term::mk_cos;
use crate::term::mk_ln;
use crate::term::mk_mul;
use crate::term::mk_pow;
use crate::term::mk_sin;

verus! {

/// The derivative of `t`, at a given recursion budget: the input is
/// simplified first, one calculus rule applies to its head — constants drop
/// to zero, the variable to one, the chain, product and generalized
/// exponential rules to composites — and the result is simplified again.
/// The budget bounds recursion depth alone and is never reached by feasible
/// inputs; at zero the derivative is returned as `0`.
pub open spec fn derivative_fuel(t: Term, fuel: nat) -> Term
    decreases fuel,
{
    if fuel == 0 {
        Term::Int(0i64)
    } else {
        let f = (fuel - 1) as nat;
        let raw = match simplified_spec(t) {
            Term::E => Term::Int(0i64),
            Term::Pi => Term::Int(0i64),
            Term::Int(_) => Term::Int(0i64),
            Term::X => Term::Int(1i64),
            Term::Ln(u) => mk_mul(derivative_fuel(*u, f), mk_pow(*u, Term::Int(-1i64))),
            Term::Sin(u) => mk_mul(derivative_fuel(*u, f), mk_cos(*u)),
            Term::Cos(u) => mk_mul(
                mk_mul(Term::Int(-1i64), derivative_fuel(*u, f)),
                mk_sin(*u),
            ),
            Term::Add(a, b) => mk_add(derivative_fuel(*a, f), derivative_fuel(*b, f)),
            Term::Mul(a, b) => mk_add(
                mk_mul(derivative_fuel(*a, f), *b),
                mk_mul(*a, derivative_fuel(*b, f)),
            ),
            Term::Pow(a, b) => mk_mul(t, derivative_fuel(mk_mul(*b, mk_ln(*a)), f)),
        };
        simplified_spec(raw)
    }
}

/// What `Term::derivative` returns: the rules above at the full budget.
pub open spec fn derivative_spec(t: Term) -> Term {
    derivative_fuel(t, REWRITE_BUDGET as nat)
}

impl Term {
    /// The derivative of `self` with respect to the variable, in canonical
    /// form: exactly `derivative_spec(self)`.
    ///
    /// The `Pow` rule is the generalized exponential rule
    /// `(u^v)' = u^v * (v * ln u)'`, valid where `u` is positive; that
    /// domain restriction is accepted, not checked.
    pub fn derivative(&self) -> (r: Term)
        ensures
            r == derivative_spec(*self),
    {
        self.derivative_fuel_exec(REWRITE_BUDGET)
    }

    /// The executable form of `derivative_fuel`.
    fn derivative_fuel_exec(&self, fuel: u64) -> (r: Term)
        ensures
            r == derivative_fuel(*self, fuel as nat),
        decreases fuel,
    {
        if fuel == 0 {
            return Term::Int(0);
        }
        let s = self.simplified();
        let raw = match s {
            Term::E => Term::Int(0),
            Term::Pi => Term::Int(0),
            Term::Int(_) => Term::Int(0),
            Term::X => Term::Int(1),
            Term::Ln(u) => {
                let d = u.derivative_fuel_exec(fuel - 1);
                Term::Mul(Box::new(d), Box::new(Term::Pow(u, Box::new(Term::Int(-1)))))
            },
            Term::Sin(u) => {
                let d = u.derivative_fuel_exec(fuel - 1);
                Term::Mul(Box::new(d), Box::new(Term::Cos(u)))
            },
            Term::Cos(u) => {
                let d = u.derivative_fuel_exec(fuel - 1);
                Term::Mul(
                    Box::new(Term::Mul(Box::new(Term::Int(-1)), Box::new(d))),
                    Box::new(Term::Sin(u)),
                )
            },
            Term::Add(a, b) => {
                let da = a.derivative_fuel_exec(fuel - 1);
                let db = b.derivative_fuel_exec(fuel - 1);
                Term::Add(Box::new(da), Box::new(db))
            },
            Term::Mul(a, b) => {
                let da = a.derivative_fuel_exec(fuel - 1);
                let db = b.derivative_fuel_exec(fuel - 1);
                Term::Add(
                    Box::new(Term::Mul(Box::new(da), Box::new((*b).clone()))),
                    Box::new(Term::Mul(Box::new((*a).clone()), Box::new(db))),
                )
            },
            Term::Pow(a, b) => {
                let inner = Term::Mul(Box::new(*b), Box::new(Term::Ln(a)));
                let d = inner.derivative_fuel_exec(fuel - 1);
                Term::Mul(Box::new(self.clone()), Box::new(d))
            },
        };
        raw.simplified()
    }
}

} // verus!
