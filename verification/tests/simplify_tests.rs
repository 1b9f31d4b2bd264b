use symderiv::Term;

#[test]
fn like_term_collection() {
    let lhs = Term::X.add(Term::X).simplified();
    let rhs = Term::Int(2).mul(Term::X).simplified();
    assert_eq!(lhs, rhs);
}

#[test]
fn exponent_combination() {
    let lhs = Term::X.mul(Term::X).simplified();
    let rhs = Term::X.pow(Term::Int(2)).simplified();
    assert_eq!(lhs, rhs);
}

#[test]
fn trig_identity_collapses() {
    let sin2 = Term::X.sin().pow(Term::Int(2));
    let cos2 = Term::X.cos().pow(Term::Int(2));
    let expr = Term::Int(3).mul(sin2).add(Term::Int(3).mul(cos2));
    assert_eq!(expr.simplified(), Term::Int(3));
}

#[test]
fn trig_identity_needs_equal_coefficients() {
    let sin2 = Term::X.sin().pow(Term::Int(2));
    let cos2 = Term::X.cos().pow(Term::Int(2));
    let expr = Term::Int(3).mul(sin2).add(Term::Int(4).mul(cos2));
    let s = expr.simplified();
    assert_ne!(s, Term::Int(3));
    assert_ne!(s, Term::Int(4));
}

#[test]
fn power_edge_cases() {
    assert_eq!(Term::X.pow(Term::Int(0)).simplified(), Term::Int(1));
    assert_eq!(Term::Int(0).pow(Term::Int(0)).simplified(), Term::Int(1));
    assert_eq!(Term::Int(2).pow(Term::Int(3)).simplified(), Term::Int(8));
    assert_eq!(Term::Int(0).pow(Term::X).simplified(), Term::Int(0));
    assert_eq!(Term::X.pow(Term::Int(1)).simplified(), Term::X);
    assert_eq!(Term::Int(1).pow(Term::X).simplified(), Term::Int(1));
}

#[test]
fn log_exp_cancellation() {
    assert_eq!(Term::E.pow(Term::X.ln()).simplified(), Term::X);
}

#[test]
fn ln_rules() {
    assert_eq!(Term::E.ln().simplified(), Term::Int(1));
    assert_eq!(Term::Int(1).ln().simplified(), Term::Int(0));
    let p = Term::X.pow(Term::Int(3)).ln().simplified();
    assert_eq!(p, Term::Int(3).mul(Term::X.ln()));
}

#[test]
fn trig_constant_rules() {
    assert_eq!(Term::Int(0).sin().simplified(), Term::Int(0));
    assert_eq!(Term::Pi.sin().simplified(), Term::Int(0));
    assert_eq!(Term::Int(0).cos().simplified(), Term::Int(1));
    assert_eq!(Term::Pi.cos().simplified(), Term::Int(-1));
}

#[test]
fn integer_folding() {
    let sum = Term::Int(2).add(Term::Int(5)).simplified();
    assert_eq!(sum, Term::Int(7));
    let prod = Term::Int(4).mul(Term::Int(-3)).simplified();
    assert_eq!(prod, Term::Int(-12));
    let zero = Term::Int(0).mul(Term::X).simplified();
    assert_eq!(zero, Term::Int(0));
    let keep = Term::Int(0).add(Term::X).simplified();
    assert_eq!(keep, Term::X);
}

#[test]
fn overflowing_sum_stays_unreduced() {
    let sum = Term::Int(i64::MAX).add(Term::Int(1)).simplified();
    // the constant fold would overflow, so the node is left as a sum
    // (reordered by the canonical key order)
    assert_eq!(sum, Term::Int(1).add(Term::Int(i64::MAX)));
}

#[test]
fn overflowing_power_stays_unreduced() {
    let p = Term::Int(2).pow(Term::Int(64)).simplified();
    assert_eq!(p, Term::Int(2).pow(Term::Int(64)));
}

#[test]
fn simplification_is_idempotent_concrete() {
    let exprs = vec![
        Term::X.add(Term::X),
        Term::Int(-2).mul(Term::X.sin()).mul(Term::X.sin()),
        Term::X.pow(Term::X),
        Term::X.div(Term::X.add(Term::Int(1))),
        Term::Int(3).mul(Term::X.sin().pow(Term::Int(2))).add(
            Term::Int(3).mul(Term::X.cos().pow(Term::Int(2))),
        ),
    ];
    for e in exprs {
        let once = e.simplified();
        assert_eq!(once.simplified(), once);
    }
}

#[test]
fn simplified_results_are_canonical() {
    let exprs = vec![
        Term::X.add(Term::X),
        Term::X.pow(Term::X),
        Term::X.div(Term::X.add(Term::Int(1))),
        Term::E.pow(Term::X.ln()),
    ];
    for e in exprs {
        assert!(e.simplified().is_canonical());
    }
}

#[test]
fn concrete_end_to_end() {
    let expr = Term::Int(-2)
        .mul(Term::X.sin())
        .mul(Term::X.sin())
        .add(Term::Int(-2).mul(Term::X.cos()).mul(Term::X.cos()));
    assert_eq!(expr.simplified(), Term::Int(-2));
    assert_eq!(expr.derivative(), Term::Int(0));
}
