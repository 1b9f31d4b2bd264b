use symderiv::Term;

#[test]
fn constants_drop_to_zero() {
    assert_eq!(Term::E.derivative(), Term::Int(0));
    assert_eq!(Term::Pi.derivative(), Term::Int(0));
    assert_eq!(Term::Int(42).derivative(), Term::Int(0));
}

#[test]
fn variable_drops_to_one() {
    assert_eq!(Term::X.derivative(), Term::Int(1));
}

#[test]
fn sine_rule() {
    assert_eq!(Term::X.sin().derivative(), Term::X.cos());
}

#[test]
fn cosine_rule() {
    assert_eq!(Term::X.cos().derivative(), Term::Int(-1).mul(Term::X.sin()));
}

#[test]
fn logarithm_rule() {
    assert_eq!(Term::X.ln().derivative(), Term::X.pow(Term::Int(-1)));
}

#[test]
fn sum_rule() {
    let d = Term::X.add(Term::X.sin()).derivative();
    let expected = Term::Int(1).add(Term::X.cos()).simplified();
    assert_eq!(d, expected);
}

#[test]
fn power_of_x_to_x() {
    let d = Term::X.pow(Term::X).derivative();
    let expected = Term::X.pow(Term::X).mul(Term::X.ln().add(Term::Int(1))).simplified();
    assert_eq!(d, expected);
}

#[test]
fn derivative_output_is_canonical() {
    let exprs = vec![
        Term::X.pow(Term::Int(3)),
        Term::X.sin().mul(Term::X.cos()),
        Term::X.div(Term::X.add(Term::Int(1))),
    ];
    for e in exprs {
        let d = e.derivative();
        assert_eq!(d.simplified(), d);
    }
}
