use unitcalc::rational::Rational;
use unitcalc::registry::{build_registry, convert, load_units, ConvertError, DefError};
use unitcalc::units::{Coef, UnitExpr};

fn lines(rows: &[&str]) -> Vec<String> {
    let mut v = Vec::new();
    for r in rows {
        v.push((*r).to_owned());
    }
    v
}

#[test]
fn decimal_chain_resolves_to_the_decimal() {
    // inch = 2.54 cm, in = inch: converting in against cm gives 2.54
    let (reg, diags) = build_registry(&lines(&[
        "cm !",
        "inch                    2.54 cm",
        "in                      inch",
    ]))
    .unwrap();
    assert!(diags.is_empty());
    match convert(&reg, &"cm".to_owned(), &"in".to_owned()).unwrap() {
        (Coef::Approx(r), None) => assert_eq!(r, Rational::new(127, 50)),
        other => panic!("unexpected conversion result: {other:?}"),
    }
}

#[test]
fn exact_chain_keeps_exact_halves() {
    // pint against quart is exactly one half
    let (reg, _) = build_registry(&lines(&[
        "gallon !",
        "quart 1|4 gallon",
        "pint 1|2 quart",
    ]))
    .unwrap();
    match convert(&reg, &"quart".to_owned(), &"pint".to_owned()).unwrap() {
        (Coef::Rational(r), None) => assert_eq!(r, Rational { numerator: 1, denominator: 2 }),
        other => panic!("unexpected conversion result: {other:?}"),
    }
}

#[test]
fn powers_and_deep_references_accumulate() {
    // gallon chains through usgallon = 231 in^3; against cm^3 the factor
    // is 231 * 2.54^3 = 473176473 / 125000
    let (reg, diags) = build_registry(&lines(&[
        "cm !",
        "inch 2.54 cm",
        "in inch",
        "usgallon 231 in^3",
        "gallon usgallon",
        "cc cm^3",
    ]))
    .unwrap();
    assert!(diags.is_empty());
    match convert(&reg, &"cc".to_owned(), &"gallon".to_owned()).unwrap() {
        (Coef::Approx(r), None) => {
            assert_eq!(r, Rational { numerator: 473176473, denominator: 125000 })
        }
        other => panic!("unexpected conversion result: {other:?}"),
    }
}

#[test]
fn unknown_unit_is_reported_not_fatal() {
    let reg = load_units().unwrap();
    match convert(&reg, &"parsec".to_owned(), &"cm".to_owned()) {
        Err(ConvertError::UnknownUnit(n)) => assert_eq!(n, "parsec"),
        other => panic!("expected an unknown-unit report, got {other:?}"),
    }
    match convert(&reg, &"cm".to_owned(), &"parsec".to_owned()) {
        Err(ConvertError::UnknownUnit(n)) => assert_eq!(n, "parsec"),
        other => panic!("expected an unknown-unit report, got {other:?}"),
    }
}

#[test]
fn built_in_table_teaspoons() {
    let reg = load_units().unwrap();
    match convert(&reg, &"ustsp".to_owned(), &"ustbsp".to_owned()).unwrap() {
        (Coef::Approx(r), None) => assert_eq!(r, Rational { numerator: 3, denominator: 1 }),
        other => panic!("unexpected conversion result: {other:?}"),
    }
    match convert(&reg, &"cm".to_owned(), &"in".to_owned()).unwrap() {
        (Coef::Approx(r), None) => assert_eq!(r, Rational { numerator: 127, denominator: 50 }),
        other => panic!("unexpected conversion result: {other:?}"),
    }
}

#[test]
fn incommensurate_units_leave_a_symbolic_part() {
    let (reg, _) = build_registry(&lines(&["cm !", "s !", "speed cm", "wait s"])).unwrap();
    match convert(&reg, &"wait".to_owned(), &"speed".to_owned()).unwrap() {
        (c, Some(rest)) => {
            assert!(c.is_unit());
            assert_eq!(rest.to_display_string(), "cm / s ");
        }
        other => panic!("expected a leftover dimension, got {other:?}"),
    }
}

#[test]
fn zero_denominator_stops_the_build() {
    assert_eq!(
        build_registry(&lines(&["a !", "b 1|0 a"])).unwrap_err(),
        DefError::ZeroDenominator
    );
}

#[test]
fn malformed_exponent_stops_the_build() {
    assert_eq!(
        build_registry(&lines(&["a !", "b 2 a^x"])).unwrap_err(),
        DefError::MalformedExponent
    );
    assert_eq!(
        build_registry(&lines(&["a !", "b a^"])).unwrap_err(),
        DefError::MalformedExponent
    );
}

#[test]
fn oversized_literals_stop_the_build() {
    assert_eq!(
        build_registry(&lines(&["a !", "b 99999999999999999999999999 a"])).unwrap_err(),
        DefError::NumberTooLarge
    );
    assert_eq!(
        build_registry(&lines(&["a !", "b 5000000000 a", "c 5000000000 b"])).unwrap_err(),
        DefError::CoefficientOverflow
    );
}

#[test]
fn unknown_references_are_dropped_with_a_diagnostic() {
    let (reg, diags) = build_registry(&lines(&["a !", "b foo a"])).unwrap();
    assert_eq!(diags, vec!["foo".to_owned()]);
    match reg.get(&"b".to_owned()).unwrap() {
        UnitExpr::Div(n, d) => {
            assert_eq!(n.len(), 1);
            assert_eq!(n[0].0, "a");
            assert!(d.is_empty());
        }
        other => panic!("unexpected entry: {other:?}"),
    }
}

#[test]
fn a_repeated_name_overwrites_the_earlier_entry() {
    let (reg, _) = build_registry(&lines(&["a !", "b a", "b a a"])).unwrap();
    match reg.get(&"b".to_owned()).unwrap() {
        UnitExpr::Div(n, _) => assert_eq!(n.len(), 2),
        other => panic!("unexpected entry: {other:?}"),
    }
}

#[test]
fn exponents_expand_into_repeated_atoms() {
    let (reg, _) = build_registry(&lines(&["m !", "sq m^2"])).unwrap();
    match reg.get(&"sq".to_owned()).unwrap() {
        UnitExpr::Div(n, d) => {
            assert_eq!(n.len(), 2);
            assert_eq!(n[0].0, "m");
            assert_eq!(n[1].0, "m");
            assert!(d.is_empty());
        }
        other => panic!("unexpected entry: {other:?}"),
    }
}

#[test]
fn comments_and_stray_tokens() {
    // a trailing comment is ignored; a dangling decimal is not a
    // coefficient and resolves (and fails) as a reference instead
    let (reg, diags) = build_registry(&lines(&["m !", "k 2. m # halfway"])).unwrap();
    assert_eq!(diags, vec!["2.".to_owned()]);
    match reg.get(&"k".to_owned()).unwrap() {
        UnitExpr::Div(n, _) => {
            assert_eq!(n.len(), 1);
            assert_eq!(n[0].0, "m");
        }
        other => panic!("unexpected entry: {other:?}"),
    }
}

#[test]
fn a_zero_factor_cannot_be_converted_from() {
    let (reg, _) = build_registry(&lines(&["a !", "z 0 a"])).unwrap();
    match convert(&reg, &"z".to_owned(), &"a".to_owned()) {
        Err(ConvertError::ZeroCoefficient) => {}
        other => panic!("expected the zero-coefficient report, got {other:?}"),
    }
}
