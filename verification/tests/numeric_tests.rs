// Numeric spot checks of value preservation and differentiation, through a
// floating-point evaluator kept here because the verified library holds no
// floating point.

use symderiv::Term;

fn eval(t: &Term, v: f64) -> f64 {
    match t {
        Term::Int(a) => *a as f64,
        Term::X => v,
        Term::E => std::f64::consts::E,
        Term::Pi => std::f64::consts::PI,
        Term::Add(a, b) => eval(a, v) + eval(b, v),
        Term::Mul(a, b) => eval(a, v) * eval(b, v),
        Term::Pow(a, b) => eval(a, v).powf(eval(b, v)),
        Term::Ln(a) => eval(a, v).ln(),
        Term::Sin(a) => eval(a, v).sin(),
        Term::Cos(a) => eval(a, v).cos(),
    }
}

fn sample_terms() -> Vec<Term> {
    vec![
        Term::X.add(Term::X),
        Term::X.mul(Term::X),
        Term::Int(3).mul(Term::X.sin().pow(Term::Int(2))).add(
            Term::Int(3).mul(Term::X.cos().pow(Term::Int(2))),
        ),
        Term::E.pow(Term::X.ln()),
        Term::X.div(Term::X.add(Term::Int(1))),
        Term::X.pow(Term::X),
        Term::X.sin().mul(Term::X.cos()),
        Term::X.sqrt(),
        Term::X.log_base(Term::Int(2)),
    ]
}

#[test]
fn simplification_preserves_value() {
    // points away from singularities of the sample terms
    let points = [0.3f64, 0.7, 1.1, 2.5];
    for t in sample_terms() {
        let s = t.simplified();
        for &v in points.iter() {
            let before = eval(&t, v);
            let after = eval(&s, v);
            assert!(
                (before - after).abs() <= 1e-9 * (1.0 + before.abs()),
                "value changed at {v}: {before} vs {after}"
            );
        }
    }
}

#[test]
fn derivative_matches_central_difference() {
    let points = [0.4f64, 0.9, 1.7];
    let h = 1e-5f64;
    for t in sample_terms() {
        let d = t.derivative();
        for &v in points.iter() {
            let numeric = (eval(&t, v + h) - eval(&t, v - h)) / (2.0 * h);
            let symbolic = eval(&d, v);
            assert!(
                (numeric - symbolic).abs() <= 1e-5 * (1.0 + numeric.abs()),
                "derivative mismatch at {v}: {numeric} vs {symbolic}"
            );
        }
    }
}
