//! The canonicalization engine: one local rewrite step, applied repeatedly to
//! a fixed point.
//!
//! The rewrite system is stated by specification functions, rule by rule;
//! `Term::simplified` is proved to return exactly their value. The fixed-point
//! iteration is bounded by a generous depth budget (`REWRITE_BUDGET`); a term
//! whose rewrite sequence were ever to outrun it is returned as it stands at
//! that point rather than aborting, so every function here is total.
//! Constant folding (`Int + Int`, `Int * Int`, integer powers, coefficient
//! merging) applies only when the result is representable as a signed 64-bit
//! value; otherwise the node is left unreduced.

use vstd::prelude::*;

use crate::order::compare_spec;
use crate::term::Term;
use crate::term::flatten_add_spec;
use crate::term::flatten_mul_spec;
use crate::term::lemma_flatten_add_len;
use crate::term::lemma_flatten_mul_len;
use crate::term::mk_add;
use crate::term::mk_cos;
use crate::term::mk_ln;
use crate::term::mk_mul;
use crate::term::mk_pow;
use crate::term::mk_sin;

verus! {

/// The depth budget of the fixed-point iteration. Each nested rewrite pass
/// spends one unit, so the budget bounds recursion depth, never breadth; no
/// feasible input comes near it.
pub const REWRITE_BUDGET: u64 = u64::MAX;

/// Whether a mathematical integer is representable as a signed 64-bit value.
pub open spec fn in_i64(v: int) -> bool {
    i64::MIN <= v <= i64::MAX
}

/// Mathematical integer power.
pub open spec fn int_pow(base: int, exp: nat) -> int
    decreases exp,
{
    if exp == 0 {
        1
    } else {
        base * int_pow(base, (exp - 1) as nat)
    }
}

/// The `(value, coefficient)` pair extracted from one addend: a product with
/// an integer literal on either side splits into the other side and that
/// literal; anything else counts once.
pub open spec fn addend_parts(t: Term) -> (Term, i64) {
    match t {
        Term::Mul(a, b) => match (*a, *b) {
            (x, Term::Int(i)) => (x, i),
            (Term::Int(i), y) => (y, i),
            _ => (t, 1i64),
        },
        _ => (t, 1i64),
    }
}

/// The `(base, exponent)` pair extracted from one factor: a power splits
/// directly; anything else gets exponent one.
pub open spec fn factor_parts(t: Term) -> (Term, Term) {
    match t {
        Term::Pow(b, e) => (*b, *e),
        _ => (t, Term::Int(1i64)),
    }
}

/// Insert an addend into the coefficient map, which is kept as an
/// association list sorted ascending by the structural order. An existing
/// key's coefficient is increased; `None` when that sum leaves the signed
/// 64-bit range.
pub open spec fn insert_coeff(entries: Seq<(Term, i64)>, key: Term, c: i64) -> Option<
    Seq<(Term, i64)>,
>
    decreases entries.len(),
{
    if entries.len() == 0 {
        Some(seq![(key, c)])
    } else {
        let h = entries[0];
        let cm = compare_spec(key, h.0);
        if cm < 0 {
            Some(seq![(key, c)] + entries)
        } else if cm == 0 {
            let s = h.1 + c;
            if in_i64(s) {
                Some(seq![(h.0, s as i64)] + entries.skip(1))
            } else {
                None
            }
        } else {
            match insert_coeff(entries.skip(1), key, c) {
                Some(r) => Some(seq![h] + r),
                None => None,
            }
        }
    }
}

/// Fold a sequence of addends into the coefficient map, left to right.
pub open spec fn collect_addends(items: Seq<Term>) -> Option<Seq<(Term, i64)>>
    decreases items.len(),
{
    if items.len() == 0 {
        Some(Seq::empty())
    } else {
        match collect_addends(items.drop_last()) {
            Some(e) => {
                let p = addend_parts(items.last());
                insert_coeff(e, p.0, p.1)
            },
            None => None,
        }
    }
}

/// Insert a factor into the exponent map, kept sorted ascending by the
/// structural order; an existing base's exponent grows by a symbolic sum,
/// new exponent on the left.
pub open spec fn insert_exp(entries: Seq<(Term, Term)>, base: Term, exp: Term) -> Seq<
    (Term, Term),
>
    decreases entries.len(),
{
    if entries.len() == 0 {
        seq![(base, exp)]
    } else {
        let h = entries[0];
        let cm = compare_spec(base, h.0);
        if cm < 0 {
            seq![(base, exp)] + entries
        } else if cm == 0 {
            seq![(h.0, mk_add(exp, h.1))] + entries.skip(1)
        } else {
            seq![h] + insert_exp(entries.skip(1), base, exp)
        }
    }
}

/// Fold a sequence of factors into the exponent map, left to right.
pub open spec fn collect_factors(items: Seq<Term>) -> Seq<(Term, Term)>
    decreases items.len(),
{
    if items.len() == 0 {
        Seq::empty()
    } else {
        let p = factor_parts(items.last());
        insert_exp(collect_factors(items.drop_last()), p.0, p.1)
    }
}

/// The key `sin(x)^2` of the trigonometric rewrite.
pub open spec fn sin_squared_key() -> Term {
    mk_pow(mk_sin(Term::X), Term::Int(2i64))
}

/// The key `cos(x)^2` of the trigonometric rewrite.
pub open spec fn cos_squared_key() -> Term {
    mk_pow(mk_cos(Term::X), Term::Int(2i64))
}

/// The coefficient stored under `key`, if any.
pub open spec fn lookup_coeff(entries: Seq<(Term, i64)>, key: Term) -> Option<i64>
    decreases entries.len(),
{
    if entries.len() == 0 {
        None
    } else if entries[0].0 == key {
        Some(entries[0].1)
    } else {
        lookup_coeff(entries.skip(1), key)
    }
}

/// The map without the first entry stored under `key`; unchanged when the
/// key is absent.
pub open spec fn remove_key(entries: Seq<(Term, i64)>, key: Term) -> Seq<(Term, i64)>
    decreases entries.len(),
{
    if entries.len() == 0 {
        entries
    } else if entries[0].0 == key {
        entries.skip(1)
    } else {
        seq![entries[0]] + remove_key(entries.skip(1), key)
    }
}

/// The trigonometric identity `c·sin²x + c·cos²x = c`: when both squares are
/// present with exactly equal integer coefficient `c`, both entries leave the
/// map and the entry for the literal `c` itself gains one.
pub open spec fn trig_adjust(entries: Seq<(Term, i64)>) -> Option<Seq<(Term, i64)>> {
    let ls = lookup_coeff(entries, sin_squared_key());
    let lc = lookup_coeff(entries, cos_squared_key());
    match (ls, lc) {
        (Some(cs), Some(cc)) => if cs == cc {
            let pruned = remove_key(remove_key(entries, sin_squared_key()), cos_squared_key());
            insert_coeff(pruned, Term::Int(cs), 1i64)
        } else {
            Some(entries)
        },
        _ => Some(entries),
    }
}

/// One left-to-right reduction step of the rebuilt sum.
pub open spec fn fold_add_pair(a: Term, b: Term) -> Term {
    if a == Term::Int(0i64) {
        b
    } else if b == Term::Int(0i64) {
        a
    } else {
        match (a, b) {
            (Term::Int(x), Term::Int(y)) => {
                let s = x + y;
                if in_i64(s) {
                    Term::Int(s as i64)
                } else {
                    mk_add(Term::Int(x), Term::Int(y))
                }
            },
            _ => mk_add(a, b),
        }
    }
}

/// One left-to-right reduction step of the rebuilt product.
pub open spec fn fold_mul_pair(a: Term, b: Term) -> Term {
    if a == Term::Int(0i64) || b == Term::Int(0i64) {
        Term::Int(0i64)
    } else if a == Term::Int(1i64) {
        b
    } else if b == Term::Int(1i64) {
        a
    } else {
        match (a, b) {
            (Term::Int(x), Term::Int(y)) => {
                let p = x * y;
                if in_i64(p) {
                    Term::Int(p as i64)
                } else {
                    mk_mul(Term::Int(x), Term::Int(y))
                }
            },
            _ => mk_mul(a, b),
        }
    }
}

/// Left fold of a non-empty sequence of addends.
pub open spec fn reduce_add(items: Seq<Term>) -> Term
    decreases items.len(),
{
    if items.len() <= 1 {
        items[0]
    } else {
        fold_add_pair(reduce_add(items.drop_last()), items.last())
    }
}

/// Left fold of a non-empty sequence of factors.
pub open spec fn reduce_mul(items: Seq<Term>) -> Term
    decreases items.len(),
{
    if items.len() <= 1 {
        items[0]
    } else {
        fold_mul_pair(reduce_mul(items.drop_last()), items.last())
    }
}

/// The rewrite of a simplified power node, in rule order: exponent zero,
/// base zero, exponent one, base one, `e^ln(a)`, integer power when
/// representable, otherwise no further reduction.
pub open spec fn pow_rewrite(s1: Term, s2: Term) -> Term {
    if s2 == Term::Int(0i64) {
        Term::Int(1i64)
    } else if s1 == Term::Int(0i64) {
        Term::Int(0i64)
    } else if s2 == Term::Int(1i64) {
        s1
    } else if s1 == Term::Int(1i64) {
        Term::Int(1i64)
    } else {
        match (s1, s2) {
            (Term::E, Term::Ln(a)) => *a,
            (Term::Int(x), Term::Int(y)) => if y > 0 && in_i64(int_pow(x as int, y as nat)) {
                Term::Int(int_pow(x as int, y as nat) as i64)
            } else {
                mk_pow(Term::Int(x), Term::Int(y))
            },
            _ => mk_pow(s1, s2),
        }
    }
}

/// The rewrite of a simplified logarithm node.
pub open spec fn ln_rewrite(s: Term) -> Term {
    match s {
        Term::Pow(a, b) => mk_mul(*b, mk_ln(*a)),
        Term::E => Term::Int(1i64),
        _ => if s == Term::Int(1i64) {
            Term::Int(0i64)
        } else {
            mk_ln(s)
        },
    }
}

/// The rewrite of a simplified cosine node.
pub open spec fn cos_rewrite(s: Term) -> Term {
    if s == Term::Int(0i64) {
        Term::Int(1i64)
    } else if s == Term::Pi {
        Term::Int(-1i64)
    } else {
        mk_cos(s)
    }
}

/// The rewrite of a simplified sine node.
pub open spec fn sin_rewrite(s: Term) -> Term {
    if s == Term::Int(0i64) {
        Term::Int(0i64)
    } else if s == Term::Pi {
        Term::Int(0i64)
    } else {
        mk_sin(s)
    }
}

/// Simplification: one rewrite step, repeated until it no longer changes the
/// term, or until the depth budget is spent (in which case the term is
/// returned as it stands).
pub open spec fn simplify_fuel(t: Term, fuel: nat) -> Term
    decreases fuel, 0nat, 0nat,
{
    if fuel == 0 {
        t
    } else {
        let s = rewrite_step(t, (fuel - 1) as nat);
        if s == t {
            t
        } else {
            simplify_fuel(s, (fuel - 1) as nat)
        }
    }
}

/// Each coefficient-map entry folded back into a term: the simplified
/// product of its value and its integer coefficient, in map order.
pub open spec fn mapped_addends(entries: Seq<(Term, i64)>, fuel: nat) -> Seq<Term>
    decreases fuel, 1nat, entries.len(),
{
    if entries.len() == 0 {
        Seq::empty()
    } else {
        mapped_addends(entries.drop_last(), fuel).push(
            simplify_fuel(mk_mul(entries.last().0, Term::Int(entries.last().1)), fuel),
        )
    }
}

/// Each exponent-map entry folded back into a term: the simplified power of
/// its base and exponent, in map order.
pub open spec fn mapped_factors(entries: Seq<(Term, Term)>, fuel: nat) -> Seq<Term>
    decreases fuel, 1nat, entries.len(),
{
    if entries.len() == 0 {
        Seq::empty()
    } else {
        mapped_factors(entries.drop_last(), fuel).push(
            simplify_fuel(mk_pow(entries.last().0, entries.last().1), fuel),
        )
    }
}

/// One rewrite step of a sum: flatten, collect like terms by coefficient,
/// apply the trigonometric identity, fold back. A coefficient that would
/// leave the representable range stops the rewrite, leaving the term
/// unchanged.
pub open spec fn add_step(t: Term, fuel: nat) -> Term
    decreases fuel, 2nat, 0nat,
{
    match collect_addends(flatten_add_spec(t)) {
        Some(e0) => match trig_adjust(e0) {
            Some(e) => reduce_add(mapped_addends(e, fuel)),
            None => t,
        },
        None => t,
    }
}

/// One rewrite step of a product: flatten, combine exponents over equal
/// bases, fold back.
pub open spec fn mul_step(t: Term, fuel: nat) -> Term
    decreases fuel, 2nat, 0nat,
{
    reduce_mul(mapped_factors(collect_factors(flatten_mul_spec(t)), fuel))
}

/// One local rewrite step, by variant. Leaves are already canonical; unary
/// nodes and powers simplify their children first and then apply their
/// rules; sums and products canonicalize their flattened chains.
pub open spec fn rewrite_step(t: Term, fuel: nat) -> Term
    decreases fuel, 3nat, 0nat,
{
    match t {
        Term::Add(_, _) => add_step(t, fuel),
        Term::Mul(_, _) => mul_step(t, fuel),
        Term::Pow(b, e) => pow_rewrite(simplify_fuel(*b, fuel), simplify_fuel(*e, fuel)),
        Term::Ln(u) => ln_rewrite(simplify_fuel(*u, fuel)),
        Term::Sin(u) => sin_rewrite(simplify_fuel(*u, fuel)),
        Term::Cos(u) => cos_rewrite(simplify_fuel(*u, fuel)),
        _ => t,
    }
}

/// What `Term::simplified` returns: the fixed-point iteration at the full
/// budget.
pub open spec fn simplified_spec(t: Term) -> Term {
    simplify_fuel(t, REWRITE_BUDGET as nat)
}

// ---------------------------------------------------------------------------
// supporting lemmas

/// A successful insertion never yields an empty map.
proof fn lemma_insert_coeff_len(entries: Seq<(Term, i64)>, key: Term, c: i64)
    ensures
        insert_coeff(entries, key, c) matches Some(r) ==> r.len() >= 1,
    decreases entries.len(),
{
    if entries.len() > 0 {
        lemma_insert_coeff_len(entries.skip(1), key, c);
    }
}

/// Collecting at least one addend yields at least one entry.
proof fn lemma_collect_len(items: Seq<Term>)
    ensures
        items.len() >= 1 && collect_addends(items) is Some ==> collect_addends(
            items,
        ).unwrap().len() >= 1,
    decreases items.len(),
{
    if items.len() >= 1 {
        if collect_addends(items) is Some {
            let p = addend_parts(items.last());
            lemma_insert_coeff_len(collect_addends(items.drop_last()).unwrap(), p.0, p.1);
        }
    }
}

/// A successful factor insertion never yields an empty map.
proof fn lemma_insert_exp_len(entries: Seq<(Term, Term)>, base: Term, exp: Term)
    ensures
        insert_exp(entries, base, exp).len() >= 1,
    decreases entries.len(),
{
    if entries.len() > 0 {
        lemma_insert_exp_len(entries.skip(1), base, exp);
    }
}

/// Collecting at least one factor yields at least one entry.
proof fn lemma_collect_factors_len(items: Seq<Term>)
    ensures
        items.len() >= 1 ==> collect_factors(items).len() >= 1,
    decreases items.len(),
{
    if items.len() >= 1 {
        let p = factor_parts(items.last());
        lemma_insert_exp_len(collect_factors(items.drop_last()), p.0, p.1);
    }
}

/// An overflow on a prefix of the addends is an overflow of the whole fold.
proof fn lemma_collect_none(items: Seq<Term>, n: int)
    requires
        0 <= n <= items.len(),
        collect_addends(items.take(n)) is None,
    ensures
        collect_addends(items) is None,
    decreases items.len() - n,
{
    if n == items.len() {
        assert(items.take(n) =~= items);
    } else {
        assert(items.take(n + 1).drop_last() =~= items.take(n));
        lemma_collect_none(items, n + 1);
    }
}

/// Insertion passes over a strict prefix of strictly smaller keys.
proof fn lemma_insert_coeff_skip(entries: Seq<(Term, i64)>, key: Term, c: i64, j: int)
    requires
        0 <= j <= entries.len(),
        forall|i: int| 0 <= i < j ==> compare_spec(key, entries[i].0) > 0,
    ensures
        insert_coeff(entries, key, c) is Some <==> insert_coeff(entries.skip(j), key, c) is Some,
        insert_coeff(entries, key, c) is Some ==> insert_coeff(entries, key, c).unwrap()
            == entries.take(j) + insert_coeff(entries.skip(j), key, c).unwrap(),
    decreases j,
{
    if j == 0 {
        assert(entries.skip(0) =~= entries);
        if insert_coeff(entries, key, c) is Some {
            assert(entries.take(0) + insert_coeff(entries, key, c).unwrap() =~= insert_coeff(
                entries,
                key,
                c,
            ).unwrap());
        }
    } else {
        let tail = entries.skip(1);
        assert(forall|i: int| 0 <= i < j - 1 ==> compare_spec(key, tail[i].0) > 0);
        lemma_insert_coeff_skip(tail, key, c, j - 1);
        assert(tail.skip(j - 1) =~= entries.skip(j));
        if insert_coeff(entries, key, c) is Some {
            assert(seq![entries[0]] + (tail.take(j - 1) + insert_coeff(
                entries.skip(j),
                key,
                c,
            ).unwrap()) =~= entries.take(j) + insert_coeff(entries.skip(j), key, c).unwrap());
        }
    }
}

/// Factor insertion passes over a strict prefix of strictly smaller keys.
proof fn lemma_insert_exp_skip(entries: Seq<(Term, Term)>, base: Term, exp: Term, j: int)
    requires
        0 <= j <= entries.len(),
        forall|i: int| 0 <= i < j ==> compare_spec(base, entries[i].0) > 0,
    ensures
        insert_exp(entries, base, exp) == entries.take(j) + insert_exp(
            entries.skip(j),
            base,
            exp,
        ),
    decreases j,
{
    if j == 0 {
        assert(entries.skip(0) =~= entries);
        assert(entries.take(0) + insert_exp(entries, base, exp) =~= insert_exp(
            entries,
            base,
            exp,
        ));
    } else {
        let tail = entries.skip(1);
        assert(forall|i: int| 0 <= i < j - 1 ==> compare_spec(base, tail[i].0) > 0);
        lemma_insert_exp_skip(tail, base, exp, j - 1);
        assert(tail.skip(j - 1) =~= entries.skip(j));
        assert(seq![entries[0]] + (tail.take(j - 1) + insert_exp(entries.skip(j), base, exp))
            =~= entries.take(j) + insert_exp(entries.skip(j), base, exp));
    }
}

/// Lookup passes over a prefix of other keys.
proof fn lemma_lookup_skip(entries: Seq<(Term, i64)>, key: Term, j: int)
    requires
        0 <= j <= entries.len(),
        forall|i: int| 0 <= i < j ==> entries[i].0 != key,
    ensures
        lookup_coeff(entries, key) == lookup_coeff(entries.skip(j), key),
    decreases j,
{
    if j == 0 {
        assert(entries.skip(0) =~= entries);
    } else {
        let tail = entries.skip(1);
        assert(forall|i: int| 0 <= i < j - 1 ==> tail[i].0 != key);
        lemma_lookup_skip(tail, key, j - 1);
        assert(tail.skip(j - 1) =~= entries.skip(j));
    }
}

/// Removal passes over a prefix of other keys.
proof fn lemma_remove_skip(entries: Seq<(Term, i64)>, key: Term, j: int)
    requires
        0 <= j <= entries.len(),
        forall|i: int| 0 <= i < j ==> entries[i].0 != key,
    ensures
        remove_key(entries, key) == entries.take(j) + remove_key(entries.skip(j), key),
    decreases j,
{
    if j == 0 {
        assert(entries.skip(0) =~= entries);
        assert(entries.take(0) + remove_key(entries, key) =~= remove_key(entries, key));
    } else {
        let tail = entries.skip(1);
        assert(forall|i: int| 0 <= i < j - 1 ==> tail[i].0 != key);
        lemma_remove_skip(tail, key, j - 1);
        assert(tail.skip(j - 1) =~= entries.skip(j));
        assert(seq![entries[0]] + (tail.take(j - 1) + remove_key(entries.skip(j), key))
            =~= entries.take(j) + remove_key(entries.skip(j), key));
    }
}

/// Powers of an integer of magnitude at most one stay within one.
proof fn lemma_pow_small(base: int, exp: nat)
    requires
        -1 <= base <= 1,
    ensures
        -1 <= int_pow(base, exp) <= 1,
    decreases exp,
{
    if exp > 0 {
        lemma_pow_small(base, (exp - 1) as nat);
        let p = int_pow(base, (exp - 1) as nat);
        assert(-1 <= base * p <= 1) by (nonlinear_arith)
            requires
                -1 <= base <= 1,
                -1 <= p <= 1,
        ;
    }
}

/// Once a power has left the representable range, all higher powers of the
/// same base stay out of it.
proof fn lemma_pow_escape(base: int, k: nat, e: nat)
    requires
        k <= e,
        !in_i64(int_pow(base, k)),
    ensures
        !in_i64(int_pow(base, e)),
    decreases e - k,
{
    if -1 <= base <= 1 {
        lemma_pow_small(base, k);
    } else {
        if k < e {
            let p = int_pow(base, k);
            let q = int_pow(base, (k + 1) as nat);
            assert(q == base * p);
            assert(q > i64::MAX || q < i64::MIN) by (nonlinear_arith)
                requires
                    base >= 2 || base <= -2,
                    p > i64::MAX || p < i64::MIN,
                    q == base * p,
            ;
            lemma_pow_escape(base, (k + 1) as nat, e);
        }
    }
}

/// `(-1)^e` alternates with the parity of `e`.
proof fn lemma_pow_neg_one(exp: nat)
    ensures
        int_pow(-1, exp) == if exp % 2 == 0 {
            1int
        } else {
            -1int
        },
    decreases exp,
{
    if exp > 0 {
        lemma_pow_neg_one((exp - 1) as nat);
    }
}

/// `0^e` is zero for positive `e`, `1^e` is one.
proof fn lemma_pow_trivial(base: int, exp: nat)
    requires
        base == 0 || base == 1,
    ensures
        base == 1 ==> int_pow(base, exp) == 1,
        base == 0 && exp >= 1 ==> int_pow(base, exp) == 0,
    decreases exp,
{
    if exp > 0 {
        lemma_pow_trivial(base, (exp - 1) as nat);
    }
}

// ---------------------------------------------------------------------------
// executable engine

/// Whether `t` is exactly the integer literal `v`.
fn is_int(t: &Term, v: i64) -> (r: bool)
    ensures
        r <==> *t == Term::Int(v),
{
    match t {
        Term::Int(x) => *x == v,
        _ => false,
    }
}

/// The executable form of `addend_parts`.
fn addend_split(t: &Term) -> (r: (Term, i64))
    ensures
        r == addend_parts(*t),
{
    match t {
        Term::Mul(a, b) => match (&**a, &**b) {
            (_, Term::Int(i)) => ((**a).clone(), *i),
            (Term::Int(i), _) => ((**b).clone(), *i),
            _ => (t.clone(), 1),
        },
        _ => (t.clone(), 1),
    }
}

/// The executable form of `factor_parts`.
fn factor_split(t: &Term) -> (r: (Term, Term))
    ensures
        r == factor_parts(*t),
{
    match t {
        Term::Pow(b, e) => ((**b).clone(), (**e).clone()),
        _ => (t.clone(), Term::Int(1)),
    }
}

/// The executable form of `insert_coeff`, mutating the map in place.
/// Returns false (leaving the map unchanged) when the merged coefficient
/// would overflow.
fn insert_entry(entries: &mut Vec<(Term, i64)>, key: Term, coeff: i64) -> (ok: bool)
    ensures
        ok ==> insert_coeff(old(entries)@, key, coeff) == Some(final(entries)@),
        !ok ==> insert_coeff(old(entries)@, key, coeff) is None,
{
    let ghost orig = entries@;
    let mut j: usize = 0;
    while j < entries.len() && key.compare(&entries[j].0) > 0
        invariant
            j <= entries@.len(),
            entries@ == orig,
            forall|i: int| 0 <= i < j ==> compare_spec(key, orig[i].0) > 0,
        decreases entries@.len() - j,
    {
        j += 1;
    }
    proof {
        lemma_insert_coeff_skip(orig, key, coeff, j as int);
    }
    if j == entries.len() {
        proof {
            assert(orig.skip(j as int) =~= Seq::<(Term, i64)>::empty());
        }
        entries.push((key, coeff));
        proof {
            assert(final(entries)@ =~= orig.take(j as int) + seq![(key, coeff)]);
        }
        true
    } else {
        let c = key.compare(&entries[j].0);
        if c == 0 {
            let cur = entries[j].1;
            match cur.checked_add(coeff) {
                Some(s) => {
                    let pair = entries.remove(j);
                    entries.insert(j, (pair.0, s));
                    proof {
                        assert(final(entries)@ =~= orig.take(j as int) + (seq![
                            (orig[j as int].0, s),
                        ] + orig.skip(j as int).skip(1)));
                    }
                    true
                },
                None => false,
            }
        } else {
            entries.insert(j, (key, coeff));
            proof {
                assert(final(entries)@ =~= orig.take(j as int) + (seq![(key, coeff)] + orig.skip(
                    j as int,
                )));
            }
            true
        }
    }
}

/// The executable form of `insert_exp`, mutating the map in place.
fn insert_factor(entries: &mut Vec<(Term, Term)>, base: Term, exp: Term)
    ensures
        final(entries)@ == insert_exp(old(entries)@, base, exp),
{
    let ghost orig = entries@;
    let mut j: usize = 0;
    while j < entries.len() && base.compare(&entries[j].0) > 0
        invariant
            j <= entries@.len(),
            entries@ == orig,
            forall|i: int| 0 <= i < j ==> compare_spec(base, orig[i].0) > 0,
        decreases entries@.len() - j,
    {
        j += 1;
    }
    proof {
        lemma_insert_exp_skip(orig, base, exp, j as int);
    }
    if j == entries.len() {
        proof {
            assert(orig.skip(j as int) =~= Seq::<(Term, Term)>::empty());
        }
        entries.push((base, exp));
        proof {
            assert(final(entries)@ =~= orig.take(j as int) + seq![(base, exp)]);
        }
    } else {
        let c = base.compare(&entries[j].0);
        if c == 0 {
            let pair = entries.remove(j);
            let merged = Term::Add(Box::new(exp), Box::new(pair.1));
            entries.insert(j, (pair.0, merged));
            proof {
                assert(final(entries)@ =~= orig.take(j as int) + (seq![
                    (orig[j as int].0, mk_add(exp, orig[j as int].1)),
                ] + orig.skip(j as int).skip(1)));
            }
        } else {
            entries.insert(j, (base, exp));
            proof {
                assert(final(entries)@ =~= orig.take(j as int) + (seq![(base, exp)] + orig.skip(
                    j as int,
                )));
            }
        }
    }
}

/// Scan for the entry stored under `key`; its position when present.
fn find_entry(entries: &Vec<(Term, i64)>, key: &Term) -> (r: Option<usize>)
    ensures
        match r {
            Some(j) => j < entries@.len() && entries@[j as int].0 == *key && lookup_coeff(
                entries@,
                *key,
            ) == Some(entries@[j as int].1),
            None => lookup_coeff(entries@, *key) is None,
        },
{
    let mut j: usize = 0;
    while j < entries.len() && key.compare(&entries[j].0) != 0
        invariant
            j <= entries@.len(),
            forall|i: int| 0 <= i < j ==> entries@[i].0 != *key,
        decreases entries@.len() - j,
    {
        j += 1;
    }
    proof {
        lemma_lookup_skip(entries@, *key, j as int);
        if j < entries@.len() {
        } else {
            assert(entries@.skip(j as int) =~= Seq::<(Term, i64)>::empty());
        }
    }
    if j < entries.len() {
        Some(j)
    } else {
        None
    }
}

/// Remove the entry stored under `key`, if any.
fn remove_entry(entries: &mut Vec<(Term, i64)>, key: &Term)
    ensures
        final(entries)@ == remove_key(old(entries)@, *key),
{
    let ghost orig = entries@;
    let mut j: usize = 0;
    while j < entries.len() && key.compare(&entries[j].0) != 0
        invariant
            j <= entries@.len(),
            entries@ == orig,
            forall|i: int| 0 <= i < j ==> orig[i].0 != *key,
        decreases entries@.len() - j,
    {
        j += 1;
    }
    proof {
        lemma_remove_skip(orig, *key, j as int);
    }
    if j < entries.len() {
        entries.remove(j);
        proof {
            assert(final(entries)@ =~= orig.take(j as int) + orig.skip(j as int).skip(1));
        }
    } else {
        proof {
            assert(orig.skip(j as int) =~= Seq::<(Term, i64)>::empty());
            assert(orig.take(j as int) + remove_key(orig.skip(j as int), *key) =~= orig);
        }
    }
}

/// The executable form of `fold_add_pair`.
fn fold_add_exec(a: Term, b: Term) -> (r: Term)
    ensures
        r == fold_add_pair(a, b),
{
    if is_int(&a, 0) {
        return b;
    }
    if is_int(&b, 0) {
        return a;
    }
    match (a, b) {
        (Term::Int(x), Term::Int(y)) => match x.checked_add(y) {
            Some(s) => Term::Int(s),
            None => Term::Add(Box::new(Term::Int(x)), Box::new(Term::Int(y))),
        },
        (a2, b2) => Term::Add(Box::new(a2), Box::new(b2)),
    }
}

/// The executable form of `fold_mul_pair`.
fn fold_mul_exec(a: Term, b: Term) -> (r: Term)
    ensures
        r == fold_mul_pair(a, b),
{
    if is_int(&a, 0) || is_int(&b, 0) {
        return Term::Int(0);
    }
    if is_int(&a, 1) {
        return b;
    }
    if is_int(&b, 1) {
        return a;
    }
    match (a, b) {
        (Term::Int(x), Term::Int(y)) => match x.checked_mul(y) {
            Some(p) => Term::Int(p),
            None => Term::Mul(Box::new(Term::Int(x)), Box::new(Term::Int(y))),
        },
        (a2, b2) => Term::Mul(Box::new(a2), Box::new(b2)),
    }
}

/// Integer power with overflow detection: exactly the representable value
/// of the mathematical power, or `None` when it leaves the range.
fn pow_checked(base: i64, exp: i64) -> (r: Option<i64>)
    requires
        exp >= 1,
    ensures
        match r {
            Some(v) => v as int == int_pow(base as int, exp as nat),
            None => !in_i64(int_pow(base as int, exp as nat)),
        },
{
    if base == 0 {
        proof {
            lemma_pow_trivial(0, exp as nat);
        }
        return Some(0);
    }
    if base == 1 {
        proof {
            lemma_pow_trivial(1, exp as nat);
        }
        return Some(1);
    }
    if base == -1 {
        proof {
            lemma_pow_neg_one(exp as nat);
        }
        return Some(
            if exp % 2 == 0 {
                1
            } else {
                -1
            },
        );
    }
    let mut acc: i64 = 1;
    let mut i: i64 = 0;
    while i < exp
        invariant
            0 <= i <= exp,
            acc as int == int_pow(base as int, i as nat),
        decreases exp - i,
    {
        match acc.checked_mul(base) {
            Some(v) => {
                acc = v;
                i += 1;
            },
            None => {
                proof {
                    assert(int_pow(base as int, (i + 1) as nat) == base as int * int_pow(
                        base as int,
                        i as nat,
                    ));
                    assert(base as int * acc as int == acc as int * base as int);
                    lemma_pow_escape(base as int, (i + 1) as nat, exp as nat);
                }
                return None;
            },
        }
    }
    Some(acc)
}

/// The executable form of `pow_rewrite`.
fn pow_rewrite_exec(s1: Term, s2: Term) -> (r: Term)
    ensures
        r == pow_rewrite(s1, s2),
{
    if is_int(&s2, 0) {
        return Term::Int(1);
    }
    if is_int(&s1, 0) {
        return Term::Int(0);
    }
    if is_int(&s2, 1) {
        return s1;
    }
    if is_int(&s1, 1) {
        return Term::Int(1);
    }
    match (s1, s2) {
        (Term::E, Term::Ln(a)) => *a,
        (Term::Int(x), Term::Int(y)) => {
            if y > 0 {
                match pow_checked(x, y) {
                    Some(v) => Term::Int(v),
                    None => Term::Pow(Box::new(Term::Int(x)), Box::new(Term::Int(y))),
                }
            } else {
                Term::Pow(Box::new(Term::Int(x)), Box::new(Term::Int(y)))
            }
        },
        (a2, b2) => Term::Pow(Box::new(a2), Box::new(b2)),
    }
}

/// The executable form of `ln_rewrite`.
fn ln_rewrite_exec(s: Term) -> (r: Term)
    ensures
        r == ln_rewrite(s),
{
    match s {
        Term::Pow(a, b) => Term::Mul(b, Box::new(Term::Ln(a))),
        Term::E => Term::Int(1),
        Term::Int(1) => Term::Int(0),
        other => Term::Ln(Box::new(other)),
    }
}

/// The executable form of `cos_rewrite`.
fn cos_rewrite_exec(s: Term) -> (r: Term)
    ensures
        r == cos_rewrite(s),
{
    match s {
        Term::Int(0) => Term::Int(1),
        Term::Pi => Term::Int(-1),
        other => Term::Cos(Box::new(other)),
    }
}

/// The executable form of `sin_rewrite`.
fn sin_rewrite_exec(s: Term) -> (r: Term)
    ensures
        r == sin_rewrite(s),
{
    match s {
        Term::Int(0) => Term::Int(0),
        Term::Pi => Term::Int(0),
        other => Term::Sin(Box::new(other)),
    }
}

/// A trigonometric adjustment keeps a non-empty map non-empty.
proof fn lemma_trig_len(entries: Seq<(Term, i64)>)
    requires
        entries.len() >= 1,
    ensures
        trig_adjust(entries) matches Some(e) ==> e.len() >= 1,
{
    let ls = lookup_coeff(entries, sin_squared_key());
    let lc = lookup_coeff(entries, cos_squared_key());
    if ls is Some && lc is Some && ls.unwrap() == lc.unwrap() {
        let pruned = remove_key(remove_key(entries, sin_squared_key()), cos_squared_key());
        lemma_insert_coeff_len(pruned, Term::Int(ls.unwrap()), 1i64);
    }
}

/// Accumulate a flattened chain of addends into the coefficient map;
/// `None` when a merged coefficient leaves the representable range.
fn collect_addend_entries(items: &Vec<Term>) -> (r: Option<Vec<(Term, i64)>>)
    ensures
        match r {
            Some(v) => collect_addends(items@) == Some(v@),
            None => collect_addends(items@) is None,
        },
{
    let mut entries: Vec<(Term, i64)> = Vec::new();
    let mut idx: usize = 0;
    while idx < items.len()
        invariant
            idx <= items@.len(),
            collect_addends(items@.take(idx as int)) == Some(entries@),
        decreases items@.len() - idx,
    {
        let (key, coeff) = addend_split(&items[idx]);
        proof {
            assert(items@.take(idx as int + 1).drop_last() =~= items@.take(idx as int));
            assert(items@.take(idx as int + 1).last() == items@[idx as int]);
        }
        let ok = insert_entry(&mut entries, key, coeff);
        if !ok {
            proof {
                lemma_collect_none(items@, idx as int + 1);
            }
            return None;
        }
        idx += 1;
    }
    proof {
        assert(items@.take(items@.len() as int) =~= items@);
    }
    Some(entries)
}

/// Accumulate a flattened chain of factors into the exponent map.
fn collect_factor_entries(items: &Vec<Term>) -> (r: Vec<(Term, Term)>)
    ensures
        r@ == collect_factors(items@),
{
    let mut entries: Vec<(Term, Term)> = Vec::new();
    let mut idx: usize = 0;
    while idx < items.len()
        invariant
            idx <= items@.len(),
            entries@ == collect_factors(items@.take(idx as int)),
        decreases items@.len() - idx,
    {
        let (base, exp) = factor_split(&items[idx]);
        proof {
            assert(items@.take(idx as int + 1).drop_last() =~= items@.take(idx as int));
            assert(items@.take(idx as int + 1).last() == items@[idx as int]);
        }
        insert_factor(&mut entries, base, exp);
        idx += 1;
    }
    proof {
        assert(items@.take(items@.len() as int) =~= items@);
    }
    entries
}

/// Apply the trigonometric identity to the coefficient map, the executable
/// form of `trig_adjust`. Returns false when the merged count would
/// overflow.
fn apply_trig(entries: &mut Vec<(Term, i64)>) -> (ok: bool)
    ensures
        ok ==> trig_adjust(old(entries)@) == Some(final(entries)@),
        !ok ==> trig_adjust(old(entries)@) is None,
{
    let skey = Term::Pow(Box::new(Term::Sin(Box::new(Term::X))), Box::new(Term::Int(2)));
    let ckey = Term::Pow(Box::new(Term::Cos(Box::new(Term::X))), Box::new(Term::Int(2)));
    proof {
        assert(skey == sin_squared_key());
        assert(ckey == cos_squared_key());
    }
    let sf = find_entry(entries, &skey);
    if let Some(js) = sf {
        let cf = find_entry(entries, &ckey);
        if let Some(jc) = cf {
            let cs = entries[js].1;
            let cc = entries[jc].1;
            if cs == cc {
                remove_entry(entries, &skey);
                remove_entry(entries, &ckey);
                return insert_entry(entries, Term::Int(cs), 1);
            }
        }
    }
    true
}

impl Term {
    /// The canonical, reduced form of `self`: one local rewrite step applied
    /// repeatedly until the term no longer changes. The result is exactly
    /// `simplified_spec(self)`, the fixed-point iteration of `rewrite_step`.
    pub fn simplified(&self) -> (r: Term)
        ensures
            r == simplified_spec(*self),
    {
        self.simplify_fuel_exec(REWRITE_BUDGET)
    }

    /// The fixed-point loop at a given depth budget.
    fn simplify_fuel_exec(&self, fuel: u64) -> (r: Term)
        ensures
            r == simplify_fuel(*self, fuel as nat),
        decreases fuel, 0nat, 0nat,
    {
        if fuel == 0 {
            return self.clone();
        }
        let s = self.rewrite_step_at(fuel - 1);
        if s.compare(self) == 0 {
            s
        } else {
            s.simplify_fuel_exec(fuel - 1)
        }
    }

    /// One local rewrite step, the executable form of `rewrite_step`.
    pub(crate) fn rewrite_step_at(&self, fuel: u64) -> (r: Term)
        ensures
            r == rewrite_step(*self, fuel as nat),
        decreases fuel, 3nat, 0nat,
    {
        match self {
            Term::Add(_, _) => self.add_step_exec(fuel),
            Term::Mul(_, _) => self.mul_step_exec(fuel),
            Term::Pow(b, e) => {
                let s1 = b.simplify_fuel_exec(fuel);
                let s2 = e.simplify_fuel_exec(fuel);
                pow_rewrite_exec(s1, s2)
            },
            Term::Ln(u) => ln_rewrite_exec(u.simplify_fuel_exec(fuel)),
            Term::Sin(u) => sin_rewrite_exec(u.simplify_fuel_exec(fuel)),
            Term::Cos(u) => cos_rewrite_exec(u.simplify_fuel_exec(fuel)),
            _ => self.clone(),
        }
    }

    /// One rewrite step of a sum, the executable form of `add_step`.
    fn add_step_exec(&self, fuel: u64) -> (r: Term)
        ensures
            r == add_step(*self, fuel as nat),
        decreases fuel, 2nat, 0nat,
    {
        let items = self.flatten_add();
        match collect_addend_entries(&items) {
            None => self.clone(),
            Some(mut entries) => {
                proof {
                    lemma_flatten_add_len(*self);
                    lemma_collect_len(items@);
                    lemma_trig_len(entries@);
                }
                let ok = apply_trig(&mut entries);
                if !ok {
                    return self.clone();
                }
                fold_entries_add(&entries, fuel)
            },
        }
    }

    /// One rewrite step of a product, the executable form of `mul_step`.
    fn mul_step_exec(&self, fuel: u64) -> (r: Term)
        ensures
            r == mul_step(*self, fuel as nat),
        decreases fuel, 2nat, 0nat,
    {
        let items = self.flatten_mul();
        let entries = collect_factor_entries(&items);
        proof {
            lemma_flatten_mul_len(*self);
            lemma_collect_factors_len(items@);
        }
        fold_entries_mul(&entries, fuel)
    }
}

/// Fold the coefficient map back into a single sum, left to right.
fn fold_entries_add(entries: &Vec<(Term, i64)>, fuel: u64) -> (r: Term)
    requires
        entries@.len() >= 1,
    ensures
        r == reduce_add(mapped_addends(entries@, fuel as nat)),
    decreases fuel, 1nat, 0nat,
{
    let ghost gent = entries@;
    let first = Term::Mul(Box::new(entries[0].0.clone()), Box::new(Term::Int(entries[0].1)));
    let mut acc = first.simplify_fuel_exec(fuel);
    proof {
        reveal_with_fuel(mapped_addends, 2);
        reveal_with_fuel(reduce_add, 2);
        assert(gent.take(1).drop_last() =~= Seq::<(Term, i64)>::empty());
        assert(gent.take(1).last() == gent[0]);
        assert(acc == reduce_add(mapped_addends(gent.take(1), fuel as nat)));
    }
    let mut j: usize = 1;
    while j < entries.len()
        invariant
            1 <= j <= gent.len(),
            entries@ == gent,
            acc == reduce_add(mapped_addends(gent.take(j as int), fuel as nat)),
        decreases gent.len() - j,
    {
        let m = Term::Mul(Box::new(entries[j].0.clone()), Box::new(Term::Int(entries[j].1)));
        let sm = m.simplify_fuel_exec(fuel);
        let ghost prev = mapped_addends(gent.take(j as int), fuel as nat);
        let next = fold_add_exec(acc, sm);
        proof {
            reveal_with_fuel(mapped_addends, 2);
            reveal_with_fuel(reduce_add, 2);
            assert(gent.take(j as int + 1).drop_last() =~= gent.take(j as int));
            assert(gent.take(j as int + 1).last() == gent[j as int]);
            let cur = mapped_addends(gent.take(j as int + 1), fuel as nat);
            assert(cur == prev.push(sm));
            assert(cur.drop_last() =~= prev);
            assert(reduce_add(cur) == fold_add_pair(reduce_add(prev), cur.last()));
        }
        acc = next;
        j += 1;
    }
    proof {
        assert(gent.take(gent.len() as int) =~= gent);
    }
    acc
}

/// Fold the exponent map back into a single product, left to right.
fn fold_entries_mul(entries: &Vec<(Term, Term)>, fuel: u64) -> (r: Term)
    requires
        entries@.len() >= 1,
    ensures
        r == reduce_mul(mapped_factors(entries@, fuel as nat)),
    decreases fuel, 1nat, 0nat,
{
    let ghost gent = entries@;
    let first = Term::Pow(Box::new(entries[0].0.clone()), Box::new(entries[0].1.clone()));
    let mut acc = first.simplify_fuel_exec(fuel);
    proof {
        reveal_with_fuel(mapped_factors, 2);
        reveal_with_fuel(reduce_mul, 2);
        assert(gent.take(1).drop_last() =~= Seq::<(Term, Term)>::empty());
        assert(gent.take(1).last() == gent[0]);
        assert(acc == reduce_mul(mapped_factors(gent.take(1), fuel as nat)));
    }
    let mut j: usize = 1;
    while j < entries.len()
        invariant
            1 <= j <= gent.len(),
            entries@ == gent,
            acc == reduce_mul(mapped_factors(gent.take(j as int), fuel as nat)),
        decreases gent.len() - j,
    {
        let m = Term::Pow(Box::new(entries[j].0.clone()), Box::new(entries[j].1.clone()));
        let sm = m.simplify_fuel_exec(fuel);
        let ghost prev = mapped_factors(gent.take(j as int), fuel as nat);
        let next = fold_mul_exec(acc, sm);
        proof {
            reveal_with_fuel(mapped_factors, 2);
            reveal_with_fuel(reduce_mul, 2);
            assert(gent.take(j as int + 1).drop_last() =~= gent.take(j as int));
            assert(gent.take(j as int + 1).last() == gent[j as int]);
            let cur = mapped_factors(gent.take(j as int + 1), fuel as nat);
            assert(cur == prev.push(sm));
            assert(cur.drop_last() =~= prev);
            assert(reduce_mul(cur) == fold_mul_pair(reduce_mul(prev), cur.last()));
        }
        acc = next;
        j += 1;
    }
    proof {
        assert(gent.take(gent.len() as int) =~= gent);
    }
    acc
}

} // verus!
