//! The structural total order on terms: variant tags first, in declaration
//! order, then children left to right. It has no mathematical meaning; it
//! only gives the canonicalization map a deterministic, unique key per
//! distinct syntactic shape.

use vstd::prelude::*;

use crate::term::Term;

verus! {

/// The fixed rank of each variant tag.
pub open spec fn rank_spec(t: Term) -> int {
    match t {
        Term::Int(_) => 0,
        Term::E => 1,
        Term::X => 2,
        Term::Pi => 3,
        Term::Add(_, _) => 4,
        Term::Mul(_, _) => 5,
        Term::Pow(_, _) => 6,
        Term::Ln(_) => 7,
        Term::Sin(_) => 8,
        Term::Cos(_) => 9,
    }
}

/// Three-way structural comparison: negative for less, zero for equal,
/// positive for greater. Tags compare by `rank_spec`; equal tags compare
/// children lexicographically, left to right.
pub open spec fn compare_spec(a: Term, b: Term) -> int
    decreases a,
{
    if rank_spec(a) != rank_spec(b) {
        if rank_spec(a) < rank_spec(b) {
            -1
        } else {
            1
        }
    } else {
        match (a, b) {
            (Term::Int(x), Term::Int(y)) => if x < y {
                -1
            } else if x == y {
                0
            } else {
                1
            },
            (Term::Add(a1, a2), Term::Add(b1, b2)) => {
                let c = compare_spec(*a1, *b1);
                if c != 0 {
                    c
                } else {
                    compare_spec(*a2, *b2)
                }
            },
            (Term::Mul(a1, a2), Term::Mul(b1, b2)) => {
                let c = compare_spec(*a1, *b1);
                if c != 0 {
                    c
                } else {
                    compare_spec(*a2, *b2)
                }
            },
            (Term::Pow(a1, a2), Term::Pow(b1, b2)) => {
                let c = compare_spec(*a1, *b1);
                if c != 0 {
                    c
                } else {
                    compare_spec(*a2, *b2)
                }
            },
            (Term::Ln(a1), Term::Ln(b1)) => compare_spec(*a1, *b1),
            (Term::Sin(a1), Term::Sin(b1)) => compare_spec(*a1, *b1),
            (Term::Cos(a1), Term::Cos(b1)) => compare_spec(*a1, *b1),
            _ => 0,
        }
    }
}

/// The comparison returns zero exactly on structurally equal terms.
pub proof fn lemma_compare_zero(a: Term, b: Term)
    ensures
        compare_spec(a, b) == 0 <==> a == b,
    decreases a,
{
    if rank_spec(a) == rank_spec(b) {
        match (a, b) {
            (Term::Add(a1, a2), Term::Add(b1, b2)) => {
                lemma_compare_zero(*a1, *b1);
                lemma_compare_zero(*a2, *b2);
            },
            (Term::Mul(a1, a2), Term::Mul(b1, b2)) => {
                lemma_compare_zero(*a1, *b1);
                lemma_compare_zero(*a2, *b2);
            },
            (Term::Pow(a1, a2), Term::Pow(b1, b2)) => {
                lemma_compare_zero(*a1, *b1);
                lemma_compare_zero(*a2, *b2);
            },
            (Term::Ln(a1), Term::Ln(b1)) => {
                lemma_compare_zero(*a1, *b1);
            },
            (Term::Sin(a1), Term::Sin(b1)) => {
                lemma_compare_zero(*a1, *b1);
            },
            (Term::Cos(a1), Term::Cos(b1)) => {
                lemma_compare_zero(*a1, *b1);
            },
            _ => {},
        }
    }
}

/// The comparison is antisymmetric: swapping the operands flips its sign.
pub proof fn lemma_compare_antisymmetric(a: Term, b: Term)
    ensures
        compare_spec(a, b) == -compare_spec(b, a),
    decreases a,
{
    if rank_spec(a) == rank_spec(b) {
        match (a, b) {
            (Term::Add(a1, a2), Term::Add(b1, b2)) => {
                lemma_compare_antisymmetric(*a1, *b1);
                lemma_compare_antisymmetric(*a2, *b2);
            },
            (Term::Mul(a1, a2), Term::Mul(b1, b2)) => {
                lemma_compare_antisymmetric(*a1, *b1);
                lemma_compare_antisymmetric(*a2, *b2);
            },
            (Term::Pow(a1, a2), Term::Pow(b1, b2)) => {
                lemma_compare_antisymmetric(*a1, *b1);
                lemma_compare_antisymmetric(*a2, *b2);
            },
            (Term::Ln(a1), Term::Ln(b1)) => {
                lemma_compare_antisymmetric(*a1, *b1);
            },
            (Term::Sin(a1), Term::Sin(b1)) => {
                lemma_compare_antisymmetric(*a1, *b1);
            },
            (Term::Cos(a1), Term::Cos(b1)) => {
                lemma_compare_antisymmetric(*a1, *b1);
            },
            _ => {},
        }
    }
}

/// The strict part of the comparison is transitive. Together with
/// `lemma_compare_zero` and `lemma_compare_antisymmetric` this makes the
/// comparison a total order, as the canonicalization map requires.
pub proof fn lemma_compare_transitive(a: Term, b: Term, c: Term)
    requires
        compare_spec(a, b) < 0,
        compare_spec(b, c) < 0,
    ensures
        compare_spec(a, c) < 0,
    decreases a,
{
    if rank_spec(a) == rank_spec(b) && rank_spec(b) == rank_spec(c) {
        match (a, b, c) {
            (Term::Add(a1, a2), Term::Add(b1, b2), Term::Add(c1, c2)) => {
                lemma_compare_zero(*a1, *b1);
                lemma_compare_zero(*b1, *c1);
                lemma_compare_zero(*a1, *c1);
                if compare_spec(*a1, *b1) < 0 && compare_spec(*b1, *c1) < 0 {
                    lemma_compare_transitive(*a1, *b1, *c1);
                } else if compare_spec(*a1, *b1) == 0 && compare_spec(*b1, *c1) == 0 {
                    lemma_compare_transitive(*a2, *b2, *c2);
                }
            },
            (Term::Mul(a1, a2), Term::Mul(b1, b2), Term::Mul(c1, c2)) => {
                lemma_compare_zero(*a1, *b1);
                lemma_compare_zero(*b1, *c1);
                lemma_compare_zero(*a1, *c1);
                if compare_spec(*a1, *b1) < 0 && compare_spec(*b1, *c1) < 0 {
                    lemma_compare_transitive(*a1, *b1, *c1);
                } else if compare_spec(*a1, *b1) == 0 && compare_spec(*b1, *c1) == 0 {
                    lemma_compare_transitive(*a2, *b2, *c2);
                }
            },
            (Term::Pow(a1, a2), Term::Pow(b1, b2), Term::Pow(c1, c2)) => {
                lemma_compare_zero(*a1, *b1);
                lemma_compare_zero(*b1, *c1);
                lemma_compare_zero(*a1, *c1);
                if compare_spec(*a1, *b1) < 0 && compare_spec(*b1, *c1) < 0 {
                    lemma_compare_transitive(*a1, *b1, *c1);
                } else if compare_spec(*a1, *b1) == 0 && compare_spec(*b1, *c1) == 0 {
                    lemma_compare_transitive(*a2, *b2, *c2);
                }
            },
            (Term::Ln(a1), Term::Ln(b1), Term::Ln(c1)) => {
                lemma_compare_zero(*a1, *b1);
                lemma_compare_zero(*b1, *c1);
                lemma_compare_transitive(*a1, *b1, *c1);
            },
            (Term::Sin(a1), Term::Sin(b1), Term::Sin(c1)) => {
                lemma_compare_zero(*a1, *b1);
                lemma_compare_zero(*b1, *c1);
                lemma_compare_transitive(*a1, *b1, *c1);
            },
            (Term::Cos(a1), Term::Cos(b1), Term::Cos(c1)) => {
                lemma_compare_zero(*a1, *b1);
                lemma_compare_zero(*b1, *c1);
                lemma_compare_transitive(*a1, *b1, *c1);
            },
            _ => {},
        }
    }
}

impl Term {
    /// Three-way structural comparison, the executable form of
    /// `compare_spec`. Returns `-1`, `0` or `1`.
    pub fn compare(&self, other: &Term) -> (r: i8)
        ensures
            r as int == compare_spec(*self, *other),
            r == 0 <==> *self == *other,
        decreases self,
    {
        proof {
            lemma_compare_zero(*self, *other);
        }
        let ra = self.rank();
        let rb = other.rank();
        if ra != rb {
            return if ra < rb {
                -1
            } else {
                1
            };
        }
        match (self, other) {
            (Term::Int(x), Term::Int(y)) => if x < y {
                -1
            } else if x == y {
                0
            } else {
                1
            },
            (Term::Add(a1, a2), Term::Add(b1, b2)) => {
                let c = a1.compare(b1);
                if c != 0 {
                    c
                } else {
                    a2.compare(b2)
                }
            },
            (Term::Mul(a1, a2), Term::Mul(b1, b2)) => {
                let c = a1.compare(b1);
                if c != 0 {
                    c
                } else {
                    a2.compare(b2)
                }
            },
            (Term::Pow(a1, a2), Term::Pow(b1, b2)) => {
                let c = a1.compare(b1);
                if c != 0 {
                    c
                } else {
                    a2.compare(b2)
                }
            },
            (Term::Ln(a1), Term::Ln(b1)) => a1.compare(b1),
            (Term::Sin(a1), Term::Sin(b1)) => a1.compare(b1),
            (Term::Cos(a1), Term::Cos(b1)) => a1.compare(b1),
            _ => 0,
        }
    }

    /// The rank of the variant tag, the executable form of `rank_spec`.
    fn rank(&self) -> (r: u8)
        ensures
            r as int == rank_spec(*self),
    {
        match self {
            Term::Int(_) => 0,
            Term::E => 1,
            Term::X => 2,
            Term::Pi => 3,
            Term::Add(_, _) => 4,
            Term::Mul(_, _) => 5,
            Term::Pow(_, _) => 6,
            Term::Ln(_) => 7,
            Term::Sin(_) => 8,
            Term::Cos(_) => 9,
        }
    }
}

impl PartialEq for Term {
    /// Structural equality, decided through `Term::compare`.
    fn eq(&self, other: &Term) -> (r: bool) {
        proof {
            lemma_compare_zero(*self, *other);
        }
        self.compare(other) == 0
    }
}

impl Eq for Term {

}

impl vstd::std_specs::cmp::PartialEqSpecImpl for Term {
    open spec fn obeys_eq_spec() -> bool {
        true
    }

    open spec fn eq_spec(&self, other: &Term) -> bool {
        *self == *other
    }
}

} // verus!
