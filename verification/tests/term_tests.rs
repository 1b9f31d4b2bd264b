use symderiv::Term;

#[test]
fn builders_produce_expected_shapes() {
    let x = Term::X;
    assert_eq!(x.ln(), Term::Ln(Box::new(Term::X)));
    assert_eq!(x.sin(), Term::Sin(Box::new(Term::X)));
    assert_eq!(x.cos(), Term::Cos(Box::new(Term::X)));
    assert_eq!(
        x.pow(Term::Int(2)),
        Term::Pow(Box::new(Term::X), Box::new(Term::Int(2)))
    );
    assert_eq!(
        Term::X.add(Term::E),
        Term::Add(Box::new(Term::X), Box::new(Term::E))
    );
    assert_eq!(
        Term::X.mul(Term::E),
        Term::Mul(Box::new(Term::X), Box::new(Term::E))
    );
}

#[test]
fn sub_desugars_to_negated_sum() {
    let d = Term::X.sub(Term::E);
    let expected = Term::X.add(Term::E.mul(Term::Int(-1)));
    assert_eq!(d, expected);
}

#[test]
fn div_desugars_to_reciprocal_product() {
    let d = Term::X.div(Term::E);
    let expected = Term::X.mul(Term::E.pow(Term::Int(-1)));
    assert_eq!(d, expected);
}

#[test]
fn sqrt_is_power_one_half() {
    let s = Term::X.sqrt();
    let half = Term::Int(1).div(Term::Int(2));
    assert_eq!(s, Term::X.pow(half));
}

#[test]
fn log_base_is_ln_quotient() {
    let l = Term::X.log_base(Term::Int(2));
    let expected = Term::X.ln().div(Term::Int(2).ln());
    assert_eq!(l, expected);
}

#[test]
fn flatten_add_orders_left_to_right() {
    // Add(Add(x, e), Add(pi, 1)) flattens depth first, left child first
    let t = Term::X.add(Term::E).add(Term::Pi.add(Term::Int(1)));
    let flat = t.flatten_add();
    assert_eq!(flat, vec![Term::X, Term::E, Term::Pi, Term::Int(1)]);
}

#[test]
fn flatten_mul_stops_at_other_nodes() {
    let t = Term::X.mul(Term::X.add(Term::E)).mul(Term::Pi);
    let flat = t.flatten_mul();
    assert_eq!(flat, vec![Term::X, Term::X.add(Term::E), Term::Pi]);
}

#[test]
fn flatten_of_leaf_is_singleton() {
    assert_eq!(Term::X.flatten_add(), vec![Term::X]);
    assert_eq!(Term::Int(5).flatten_mul(), vec![Term::Int(5)]);
}

#[test]
fn compare_is_a_total_order_on_samples() {
    let samples = vec![
        Term::Int(-3),
        Term::Int(7),
        Term::E,
        Term::X,
        Term::Pi,
        Term::X.add(Term::E),
        Term::X.mul(Term::E),
        Term::X.pow(Term::Int(2)),
        Term::X.ln(),
        Term::X.sin(),
        Term::X.cos(),
    ];
    for (i, a) in samples.iter().enumerate() {
        for (j, b) in samples.iter().enumerate() {
            let c = a.compare(b);
            let back = b.compare(a);
            assert_eq!(c == 0, i == j);
            assert_eq!(c, -back);
        }
    }
    // tags order as declared: Int < E < X < Pi < Add < Mul < Pow < Ln < Sin < Cos
    for w in samples.windows(2) {
        if w[0].compare(&w[1]) == 0 {
            continue;
        }
        assert_eq!(w[0].compare(&w[1]), -1);
    }
}

#[test]
fn render_matches_fixed_forms() {
    assert_eq!(Term::X.render(), b"(x)".to_vec());
    assert_eq!(Term::E.render(), b"(e)".to_vec());
    assert_eq!(Term::Pi.render(), b"(pi)".to_vec());
    assert_eq!(Term::Int(42).render(), b"(42)".to_vec());
    assert_eq!(Term::Int(-7).render(), b"(-7)".to_vec());
    assert_eq!(Term::Int(0).render(), b"(0)".to_vec());
    assert_eq!(Term::X.add(Term::Int(1)).render(), b"((x) + (1))".to_vec());
    assert_eq!(Term::X.mul(Term::E).render(), b"((x) * (e))".to_vec());
    assert_eq!(Term::X.pow(Term::Int(2)).render(), b"((x) ^ (2))".to_vec());
    assert_eq!(Term::X.ln().render(), b"(ln(x))".to_vec());
    assert_eq!(Term::X.sin().render(), b"(sin(x))".to_vec());
    assert_eq!(Term::X.cos().render(), b"(cos(x))".to_vec());
}

#[test]
fn render_extreme_integer() {
    assert_eq!(
        Term::Int(i64::MIN).render(),
        b"(-9223372036854775808)".to_vec()
    );
}
