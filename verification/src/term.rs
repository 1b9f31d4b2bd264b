//! The expression tree: a recursive, immutable, structurally compared value
//! type, together with its construction combinators and the flattening of
//! associative chains.

use vstd::prelude::*;

verus! {

/// A symbolic expression over the single variable `X`.
///
/// Composite variants own their children exclusively; the tree is acyclic and
/// never mutated in place — every transformation builds a new tree. Equality
/// is structural, and `Term::compare` realises the total order that the
/// canonicalization map is keyed by (variant tag first, then children, left
/// to right).
#[derive(Debug)]
pub enum Term {
    Int(i64),
    E,
    X,
    Pi,
    Add(Box<Term>, Box<Term>),
    Mul(Box<Term>, Box<Term>),
    Pow(Box<Term>, Box<Term>),
    Ln(Box<Term>),
    Sin(Box<Term>),
    Cos(Box<Term>),
}

// Specification-level constructors, so that contracts can spell out tree
// shapes without boxing noise.

pub open spec fn mk_add(a: Term, b: Term) -> Term {
    Term::Add(Box::new(a), Box::new(b))
}

pub open spec fn mk_mul(a: Term, b: Term) -> Term {
    Term::Mul(Box::new(a), Box::new(b))
}

pub open spec fn mk_pow(base: Term, exp: Term) -> Term {
    Term::Pow(Box::new(base), Box::new(exp))
}

pub open spec fn mk_ln(a: Term) -> Term {
    Term::Ln(Box::new(a))
}

pub open spec fn mk_sin(a: Term) -> Term {
    Term::Sin(Box::new(a))
}

pub open spec fn mk_cos(a: Term) -> Term {
    Term::Cos(Box::new(a))
}

/// The ordered sequence of top-level addends of `t`: descend through `Add`
/// nodes, left child first; any other node is a leaf of the sequence.
pub open spec fn flatten_add_spec(t: Term) -> Seq<Term>
    decreases t,
{
    match t {
        Term::Add(a, b) => flatten_add_spec(*a) + flatten_add_spec(*b),
        _ => seq![t],
    }
}

/// The ordered sequence of top-level factors of `t`: descend through `Mul`
/// nodes, left child first; any other node is a leaf of the sequence.
pub open spec fn flatten_mul_spec(t: Term) -> Seq<Term>
    decreases t,
{
    match t {
        Term::Mul(a, b) => flatten_mul_spec(*a) + flatten_mul_spec(*b),
        _ => seq![t],
    }
}

/// Every term flattens to at least one addend.
pub proof fn lemma_flatten_add_len(t: Term)
    ensures
        flatten_add_spec(t).len() >= 1,
    decreases t,
{
    match t {
        Term::Add(a, b) => {
            lemma_flatten_add_len(*a);
            lemma_flatten_add_len(*b);
        },
        _ => {},
    }
}

/// Every term flattens to at least one factor.
pub proof fn lemma_flatten_mul_len(t: Term)
    ensures
        flatten_mul_spec(t).len() >= 1,
    decreases t,
{
    match t {
        Term::Mul(a, b) => {
            lemma_flatten_mul_len(*a);
            lemma_flatten_mul_len(*b);
        },
        _ => {},
    }
}

impl Clone for Term {
    /// A structural deep copy: the clone is equal to the original.
    fn clone(&self) -> (r: Term)
        ensures
            r == *self,
        decreases self,
    {
        match self {
            Term::Int(i) => Term::Int(*i),
            Term::E => Term::E,
            Term::X => Term::X,
            Term::Pi => Term::Pi,
            Term::Add(a, b) => Term::Add(Box::new((&**a).clone()), Box::new((&**b).clone())),
            Term::Mul(a, b) => Term::Mul(Box::new((&**a).clone()), Box::new((&**b).clone())),
            Term::Pow(a, b) => Term::Pow(Box::new((&**a).clone()), Box::new((&**b).clone())),
            Term::Ln(a) => Term::Ln(Box::new((&**a).clone())),
            Term::Sin(a) => Term::Sin(Box::new((&**a).clone())),
            Term::Cos(a) => Term::Cos(Box::new((&**a).clone())),
        }
    }
}

impl Term {
    /// The natural logarithm of `self`, as a tree node.
    pub fn ln(&self) -> (r: Term)
        ensures
            r == mk_ln(*self),
    {
        Term::Ln(Box::new(self.clone()))
    }

    /// The sine of `self`, as a tree node.
    pub fn sin(&self) -> (r: Term)
        ensures
            r == mk_sin(*self),
    {
        Term::Sin(Box::new(self.clone()))
    }

    /// The cosine of `self`, as a tree node.
    pub fn cos(&self) -> (r: Term)
        ensures
            r == mk_cos(*self),
    {
        Term::Cos(Box::new(self.clone()))
    }

    /// `self` raised to `other`, as a tree node.
    pub fn pow(&self, other: Term) -> (r: Term)
        ensures
            r == mk_pow(*self, other),
    {
        Term::Pow(Box::new(self.clone()), Box::new(other))
    }

    /// The sum of two terms, as a tree node.
    pub fn add(self, other: Term) -> (r: Term)
        ensures
            r == mk_add(self, other),
    {
        Term::Add(Box::new(self), Box::new(other))
    }

    /// The product of two terms, as a tree node.
    pub fn mul(self, other: Term) -> (r: Term)
        ensures
            r == mk_mul(self, other),
    {
        Term::Mul(Box::new(self), Box::new(other))
    }

    /// The difference of two terms, desugared to `self + other * (-1)`.
    pub fn sub(self, other: Term) -> (r: Term)
        ensures
            r == mk_add(self, mk_mul(other, Term::Int(-1i64))),
    {
        let n = other.mul(Term::Int(-1));
        self.add(n)
    }

    /// The quotient of two terms, desugared to multiplication by the
    /// reciprocal `other ^ (-1)`.
    pub fn div(self, other: Term) -> (r: Term)
        ensures
            r == mk_mul(self, mk_pow(other, Term::Int(-1i64))),
    {
        let p = Term::Pow(Box::new(other), Box::new(Term::Int(-1)));
        self.mul(p)
    }

    /// The square root of `self`, written as the power `1 / 2`.
    pub fn sqrt(&self) -> (r: Term)
        ensures
            r == mk_pow(*self, mk_mul(Term::Int(1i64), mk_pow(Term::Int(2i64), Term::Int(-1i64)))),
    {
        let half = Term::Int(1).div(Term::Int(2));
        self.pow(half)
    }

    /// The logarithm of `self` in the given base, written as the quotient of
    /// two natural logarithms.
    pub fn log_base(&self, base: Term) -> (r: Term)
        ensures
            r == mk_mul(mk_ln(*self), mk_pow(mk_ln(base), Term::Int(-1i64))),
    {
        let num = self.ln();
        let den = base.ln();
        num.div(den)
    }

    /// The ordered sequence of top-level addends of `self`.
    pub fn flatten_add(&self) -> (r: Vec<Term>)
        ensures
            r@ == flatten_add_spec(*self),
        decreases self,
    {
        match self {
            Term::Add(a, b) => {
                let mut v = a.flatten_add();
                let mut w = b.flatten_add();
                v.append(&mut w);
                v
            },
            _ => {
                let mut v: Vec<Term> = Vec::new();
                v.push(self.clone());
                proof {
                    assert(v@ =~= seq![*self]);
                }
                v
            },
        }
    }

    /// The ordered sequence of top-level factors of `self`.
    pub fn flatten_mul(&self) -> (r: Vec<Term>)
        ensures
            r@ == flatten_mul_spec(*self),
        decreases self,
    {
        match self {
            Term::Mul(a, b) => {
                let mut v = a.flatten_mul();
                let mut w = b.flatten_mul();
                v.append(&mut w);
                v
            },
            _ => {
                let mut v: Vec<Term> = Vec::new();
                v.push(self.clone());
                proof {
                    assert(v@ =~= seq![*self]);
                }
                v
            },
        }
    }
}

} // verus!
