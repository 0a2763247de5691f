use unitcalc::rational::Rational;
use unitcalc::registry::load_units;
use unitcalc::units::{Basic, Coef, UnitExpr};

fn atoms(names: &[&str]) -> Vec<Basic> {
    let mut v = Vec::new();
    for n in names {
        v.push(Basic((*n).to_owned()));
    }
    v
}

fn atom_names(v: &[Basic]) -> Vec<String> {
    let mut r: Vec<String> = Vec::new();
    for b in v {
        r.push(b.0.clone());
    }
    r
}

#[test]
pub fn expr() {
    let m = UnitExpr::Coef(
        Coef::Approx(Rational::new(10, 1)),
        Box::new(UnitExpr::Basic(Basic("m".to_owned()))),
    );
    let s = UnitExpr::Basic(Basic("s".to_owned()));
    let v = m.clone().divide(s.clone());
    println!(
        "{} /  {} = {}",
        m.to_display_string(),
        s.to_display_string(),
        v.to_display_string()
    );

    let m = UnitExpr::Basic(Basic("m".to_owned()));
    let a = m.clone().multiply(m.clone());
    println!(
        "{} *  {} = {}",
        m.to_display_string(),
        m.to_display_string(),
        a.to_display_string()
    );

    let v2 = a.clone().divide(v.clone());
    println!(
        "{} /  {} = {}",
        a.to_display_string(),
        v.to_display_string(),
        v2.to_display_string()
    );

    let v2 = v.clone().divide(a.clone());
    println!(
        "{} /  {} = {}",
        v.to_display_string(),
        a.to_display_string(),
        v2.to_display_string()
    );
    let units = load_units().unwrap();

    let tsp = units.get(&"ustsp".to_owned()).unwrap().clone();
    let tbsp = units.get(&"ustbsp".to_owned()).unwrap().clone();
    println!("{:?}", tsp);
    println!("{:?}", tbsp);
    let conv = tbsp.clone().divide(tsp.clone());
    println!("tbsp / tsp = {:?}", conv);
    let conv = tsp.divide(tbsp);
    println!("tsp / tbsp = {:?}", conv);
}

#[test]
fn new_rational_is_in_lowest_terms() {
    let r = Rational::new(84, 126);
    assert_eq!(r, Rational { numerator: 2, denominator: 3 });
    assert_eq!(r.gcd(), 1);
    let r = Rational::new(0, 5);
    assert_eq!(r, Rational { numerator: 0, denominator: 1 });
    let r = Rational::new(7, 7);
    assert_eq!(r, Rational { numerator: 1, denominator: 1 });
    assert_eq!(Rational { numerator: 12, denominator: 8 }.simplify(), Rational {
        numerator: 3,
        denominator: 2,
    });
}

#[test]
fn divide_then_multiply_returns_to_start() {
    let a = Rational::new(3, 7);
    let b = Rational::new(2, 5);
    assert_eq!(a.divide(b).multiply(b), a);
    let a = Rational::new(10, 4);
    let b = Rational::new(6, 9);
    assert_eq!(a.divide(b).multiply(b), a);
}

#[test]
fn checked_arithmetic_reports_overflow() {
    let big = Rational::new(usize::MAX, 1);
    assert_eq!(big.checked_multiply(Rational::new(2, 1)), None);
    assert_eq!(big.checked_divide(Rational::new(1, 2)), None);
    assert_eq!(
        Rational::new(1, 2).checked_multiply(Rational::new(2, 3)),
        Some(Rational { numerator: 1, denominator: 3 })
    );
}

#[test]
fn cancellation_is_idempotent() {
    // one pass cancels the one shared atom; a second pass changes nothing
    let (n, d) = UnitExpr::cancel_units(atoms(&["m", "s", "m"]), atoms(&["s", "s"]));
    assert_eq!(atom_names(&n), vec!["m".to_owned(), "m".to_owned()]);
    assert_eq!(atom_names(&d), vec!["s".to_owned()]);
    let (n2, d2) = UnitExpr::cancel_units(n, d);
    assert_eq!(atom_names(&n2), vec!["m".to_owned(), "m".to_owned()]);
    assert_eq!(atom_names(&d2), vec!["s".to_owned()]);
}

#[test]
fn cancellation_takes_the_first_match() {
    let (n, d) = UnitExpr::cancel_units(atoms(&["m", "m", "m"]), atoms(&["m", "m"]));
    assert_eq!(atom_names(&n), vec!["m".to_owned()]);
    assert_eq!(atom_names(&d), Vec::<String>::new());
}

#[test]
fn multiply_is_commutative_on_atoms_and_coefficient() {
    let a = UnitExpr::Coef(
        Coef::Rational(Rational::new(3, 2)),
        Box::new(UnitExpr::Div(atoms(&["m", "kg"]), atoms(&["s"]))),
    );
    let b = UnitExpr::Coef(
        Coef::Rational(Rational::new(5, 7)),
        Box::new(UnitExpr::Div(atoms(&["s", "s"]), atoms(&["kg"]))),
    );
    let ab = a.clone().multiply(b.clone());
    let ba = b.multiply(a);
    let (cab, eab) = ab.factor_out_coef();
    let (cba, eba) = ba.factor_out_coef();
    assert_eq!(cab, cba);
    let (mut nab, mut dab) = match eab {
        UnitExpr::Div(n, d) => (atom_names(&n), atom_names(&d)),
        _ => unreachable!(),
    };
    let (mut nba, mut dba) = match eba {
        UnitExpr::Div(n, d) => (atom_names(&n), atom_names(&d)),
        _ => unreachable!(),
    };
    nab.sort();
    nba.sort();
    dab.sort();
    dba.sort();
    assert_eq!(nab, nba);
    assert_eq!(dab, dba);
}

#[test]
fn dividing_an_expression_by_itself_is_dimensionless() {
    let x = UnitExpr::Coef(
        Coef::Rational(Rational::new(3, 2)),
        Box::new(UnitExpr::Div(atoms(&["m", "m"]), atoms(&["s"]))),
    );
    let q = x.clone().divide(x);
    match q {
        UnitExpr::Div(n, d) => {
            assert!(n.is_empty());
            assert!(d.is_empty());
        }
        other => panic!("not reduced to the bare empty ratio: {other:?}"),
    }
}

#[test]
fn display_forms() {
    assert_eq!(
        UnitExpr::Div(atoms(&["m"]), atoms(&["s"])).to_display_string(),
        "m / s "
    );
    assert_eq!(
        UnitExpr::Div(atoms(&[]), atoms(&["s"])).to_display_string(),
        "1 / s "
    );
    assert_eq!(UnitExpr::Div(atoms(&[]), atoms(&[])).to_display_string(), "");
    assert_eq!(UnitExpr::Basic(Basic("cm".to_owned())).to_display_string(), "cm");
    assert_eq!(
        UnitExpr::Coef(
            Coef::Rational(Rational::new(231, 2)),
            Box::new(UnitExpr::Div(atoms(&["cm"]), atoms(&[]))),
        )
        .to_display_string(),
        "231|2 cm "
    );
    assert_eq!(
        UnitExpr::Coef(
            Coef::Approx(Rational::new(127, 50)),
            Box::new(UnitExpr::Basic(Basic("cm".to_owned()))),
        )
        .to_display_string(),
        "~127|50 cm"
    );
}

#[test]
fn coefficient_identity_rules() {
    assert!(Coef::unit().is_unit());
    assert!(Coef::Rational(Rational::new(4, 4)).is_unit());
    // an approximate one is never the identity
    assert!(!Coef::Approx(Rational::new(1, 1)).is_unit());
    let c = Coef::Rational(Rational::new(1, 2)).multiply(Coef::Approx(Rational::new(2, 1)));
    assert!(matches!(c, Coef::Approx(_)));
    assert!(!c.is_unit());
}
