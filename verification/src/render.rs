//! Rendering a term to its fully parenthesized textual form, as ASCII
//! bytes: composites as `(<left> <op> <right>)`, unary functions as
//! `(<fn><arg>)`, leaves as `(x)`, `(e)`, `(pi)` and `(<value>)`.

use vstd::prelude::*;

use crate::term::Term;

verus! {

/// ASCII codes used by the renderer.
pub const LPAR: u8 = 40;

pub const RPAR: u8 = 41;

pub const SPACE: u8 = 32;

pub const PLUS: u8 = 43;

pub const STAR: u8 = 42;

pub const CARET: u8 = 94;

pub const MINUS: u8 = 45;

pub const LET_C: u8 = 99;

pub const LET_E: u8 = 101;

pub const LET_I: u8 = 105;

pub const LET_L: u8 = 108;

pub const LET_N: u8 = 110;

pub const LET_O: u8 = 111;

pub const LET_P: u8 = 112;

pub const LET_S: u8 = 115;

pub const LET_X: u8 = 120;

/// The decimal digits of `n`, most significant first.
pub open spec fn dec_digits(n: nat) -> Seq<u8>
    decreases n,
{
    if n < 10 {
        seq![(48 + n) as u8]
    } else {
        dec_digits(n / 10).push((48 + n % 10) as u8)
    }
}

/// The decimal text of a signed integer.
pub open spec fn int_text(i: int) -> Seq<u8> {
    if i < 0 {
        seq![MINUS] + dec_digits((-i) as nat)
    } else {
        dec_digits(i as nat)
    }
}

/// The textual form of a term.
pub open spec fn render_spec(t: Term) -> Seq<u8>
    decreases t,
{
    match t {
        Term::E => seq![LPAR, LET_E, RPAR],
        Term::Pi => seq![LPAR, LET_P, LET_I, RPAR],
        Term::X => seq![LPAR, LET_X, RPAR],
        Term::Int(i) => seq![LPAR] + int_text(i as int) + seq![RPAR],
        Term::Add(a, b) => seq![LPAR] + render_spec(*a) + seq![SPACE, PLUS, SPACE] + render_spec(
            *b,
        ) + seq![RPAR],
        Term::Mul(a, b) => seq![LPAR] + render_spec(*a) + seq![SPACE, STAR, SPACE] + render_spec(
            *b,
        ) + seq![RPAR],
        Term::Pow(a, b) => seq![LPAR] + render_spec(*a) + seq![SPACE, CARET, SPACE] + render_spec(
            *b,
        ) + seq![RPAR],
        Term::Ln(a) => seq![LPAR, LET_L, LET_N] + render_spec(*a) + seq![RPAR],
        Term::Sin(a) => seq![LPAR, LET_S, LET_I, LET_N] + render_spec(*a) + seq![RPAR],
        Term::Cos(a) => seq![LPAR, LET_C, LET_O, LET_S] + render_spec(*a) + seq![RPAR],
    }
}

/// Append the decimal digits of `n`.
fn push_dec(out: &mut Vec<u8>, n: u64)
    ensures
        final(out)@ == old(out)@ + dec_digits(n as nat),
    decreases n,
{
    if n < 10 {
        out.push(48 + (n as u8));
        proof {
            assert(final(out)@ =~= old(out)@ + dec_digits(n as nat));
        }
    } else {
        push_dec(out, n / 10);
        out.push(48 + ((n % 10) as u8));
        proof {
            assert(final(out)@ =~= old(out)@ + dec_digits(n as nat));
        }
    }
}

/// Append the textual form of `t`.
fn push_render(out: &mut Vec<u8>, t: &Term)
    ensures
        final(out)@ == old(out)@ + render_spec(*t),
    decreases t,
{
    match t {
        Term::E => {
            out.push(LPAR);
            out.push(LET_E);
            out.push(RPAR);
            proof {
                assert(final(out)@ =~= old(out)@ + render_spec(*t));
            }
        },
        Term::Pi => {
            out.push(LPAR);
            out.push(LET_P);
            out.push(LET_I);
            out.push(RPAR);
            proof {
                assert(final(out)@ =~= old(out)@ + render_spec(*t));
            }
        },
        Term::X => {
            out.push(LPAR);
            out.push(LET_X);
            out.push(RPAR);
            proof {
                assert(final(out)@ =~= old(out)@ + render_spec(*t));
            }
        },
        Term::Int(i) => {
            out.push(LPAR);
            if *i < 0 {
                out.push(MINUS);
                let m: u64 = ((-(*i + 1)) as u64) + 1;
                proof {
                    assert(m as int == -(*i as int));
                }
                push_dec(out, m);
            } else {
                push_dec(out, *i as u64);
            }
            out.push(RPAR);
            proof {
                assert(final(out)@ =~= old(out)@ + render_spec(*t));
            }
        },
        Term::Add(a, b) => {
            out.push(LPAR);
            push_render(out, a);
            out.push(SPACE);
            out.push(PLUS);
            out.push(SPACE);
            push_render(out, b);
            out.push(RPAR);
            proof {
                assert(final(out)@ =~= old(out)@ + render_spec(*t));
            }
        },
        Term::Mul(a, b) => {
            out.push(LPAR);
            push_render(out, a);
            out.push(SPACE);
            out.push(STAR);
            out.push(SPACE);
            push_render(out, b);
            out.push(RPAR);
            proof {
                assert(final(out)@ =~= old(out)@ + render_spec(*t));
            }
        },
        Term::Pow(a, b) => {
            out.push(LPAR);
            push_render(out, a);
            out.push(SPACE);
            out.push(CARET);
            out.push(SPACE);
            push_render(out, b);
            out.push(RPAR);
            proof {
                assert(final(out)@ =~= old(out)@ + render_spec(*t));
            }
        },
        Term::Ln(a) => {
            out.push(LPAR);
            out.push(LET_L);
            out.push(LET_N);
            push_render(out, a);
            out.push(RPAR);
            proof {
                assert(final(out)@ =~= old(out)@ + render_spec(*t));
            }
        },
        Term::Sin(a) => {
            out.push(LPAR);
            out.push(LET_S);
            out.push(LET_I);
            out.push(LET_N);
            push_render(out, a);
            out.push(RPAR);
            proof {
                assert(final(out)@ =~= old(out)@ + render_spec(*t));
            }
        },
        Term::Cos(a) => {
            out.push(LPAR);
            out.push(LET_C);
            out.push(LET_O);
            out.push(LET_S);
            push_render(out, a);
            out.push(RPAR);
            proof {
                assert(final(out)@ =~= old(out)@ + render_spec(*t));
            }
        },
    }
}

impl Term {
    /// The fully parenthesized textual form of `self`, as ASCII bytes; a
    /// total function with no error cases.
    pub fn render(&self) -> (r: Vec<u8>)
        ensures
            r@ == render_spec(*self),
    {
        let mut out: Vec<u8> = Vec::new();
        push_render(&mut out, self);
        proof {
            assert(Seq::<u8>::empty() + render_spec(*self) =~= render_spec(*self));
        }
        out
    }
}

} // verus!
