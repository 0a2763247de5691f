//! Symbolic unit expressions and their combination algebra.
//!
//! A `UnitExpr` is an atomic unit, a product-over-quotient of atomic units,
//! or a coefficient-scaled expression.  Multiplication and division combine
//! two expressions: the coefficients combine numerically while the atom
//! lists concatenate, and matching atoms on the two sides of the quotient
//! cancel until none remain.

use crate::rational::{gcd, reduced_den, reduced_num, Rational};
use vstd::multiset::Multiset;
use vstd::prelude::*;

verus! {

broadcast use vstd::seq_lib::group_to_multiset_ensures;

/// An atomic unit symbol, such as `cm`; equality is name equality.
#[derive(Debug)]
pub struct Basic(pub String);

impl View for Basic {
    type V = Seq<char>;

    open spec fn view(&self) -> Seq<char> {
        self.0@
    }
}

impl Clone for Basic {
    fn clone(&self) -> (r: Self)
        ensures
            r@ == self@,
    {
        Basic(self.0.clone())
    }
}

/// The numeric scale factor of a unit expression, either exact or carried
/// over from a decimal literal and so only approximate.
#[derive(Debug, Eq, PartialEq, Copy, Clone, Structural)]
pub enum Coef {
    /// A factor that entered through a decimal literal.  Its value is kept
    /// as the exact fraction the digits denote, but combining it with
    /// anything yields another approximate factor, and it never counts as
    /// the multiplicative identity.
    Approx(Rational),
    /// An exact fraction.
    Rational(Rational),
}

/// Mathematical content of a `Coef`: an exactness mark and a fraction.
pub struct CoefV {
    pub exact: bool,
    pub num: nat,
    pub den: nat,
}

impl View for Coef {
    type V = CoefV;

    open spec fn view(&self) -> CoefV {
        match self {
            Coef::Approx(r) => CoefV { exact: false, num: r.numerator as nat, den: r.denominator as nat },
            Coef::Rational(r) => CoefV { exact: true, num: r.numerator as nat, den: r.denominator as nat },
        }
    }
}

/// The multiplicative identity, exactly one.
pub open spec fn coef_one() -> CoefV {
    CoefV { exact: true, num: 1, den: 1 }
}

/// A coefficient counts as the identity only when it is exact and its
/// fraction has equal parts.
pub open spec fn coef_is_unit(c: CoefV) -> bool {
    c.exact && c.num == c.den
}

/// The fraction has a positive denominator and both parts fit a machine
/// word.
pub open spec fn coef_wf(c: CoefV) -> bool {
    0 < c.den && c.num <= usize::MAX && c.den <= usize::MAX
}

/// Product of two coefficients: the fractions multiply and reduce, and the
/// result is exact only when both factors are.
pub open spec fn coef_mul(a: CoefV, b: CoefV) -> CoefV {
    CoefV {
        exact: a.exact && b.exact,
        num: reduced_num(a.num * b.num, a.den * b.den),
        den: reduced_den(a.num * b.num, a.den * b.den),
    }
}

/// Quotient of two coefficients, by cross multiplication.
pub open spec fn coef_div(a: CoefV, b: CoefV) -> CoefV {
    CoefV {
        exact: a.exact && b.exact,
        num: reduced_num(a.num * b.den, a.den * b.num),
        den: reduced_den(a.num * b.den, a.den * b.num),
    }
}

/// The raw parts of the product stay within a machine word.
pub open spec fn coef_mul_fits(a: CoefV, b: CoefV) -> bool {
    a.num * b.num <= usize::MAX && a.den * b.den <= usize::MAX
}

/// The raw parts of the quotient stay within a machine word.
pub open spec fn coef_div_fits(a: CoefV, b: CoefV) -> bool {
    a.num * b.den <= usize::MAX && a.den * b.num <= usize::MAX
}

impl Coef {
    /// The multiplicative identity, an exact one.
    pub fn unit() -> (c: Coef)
        ensures
            c@ == coef_one(),
    {
        let r = Rational::new(1, 1);
        proof {
            assert(gcd(1, 0) == 1);
            assert(gcd(1, 1) == 1);
        }
        Coef::Rational(r)
    }

    /// Whether this coefficient is the exact identity; an approximate
    /// factor never is, whatever its value.
    pub fn is_unit(&self) -> (r: bool)
        ensures
            r == coef_is_unit(self@),
    {
        match self {
            Coef::Rational(l) => l.numerator == l.denominator,
            _ => false,
        }
    }

    /// The underlying fraction, without the exactness mark.
    pub fn value(&self) -> (r: Rational)
        ensures
            r.numerator == self@.num,
            r.denominator == self@.den,
    {
        match self {
            Coef::Approx(r) => *r,
            Coef::Rational(r) => *r,
        }
    }

    /// Whether this coefficient is exact rather than approximate.
    pub fn is_exact(&self) -> (r: bool)
        ensures
            r == self@.exact,
    {
        match self {
            Coef::Approx(_) => false,
            Coef::Rational(_) => true,
        }
    }

    /// Product of two coefficients; exactness degrades to approximate as
    /// soon as either factor is approximate.
    pub fn multiply(self, rhs: Coef) -> (r: Coef)
        requires
            coef_wf(self@),
            coef_wf(rhs@),
            coef_mul_fits(self@, rhs@),
        ensures
            r@ == coef_mul(self@, rhs@),
            coef_wf(r@),
    {
        match (self, rhs) {
            (Coef::Rational(l), Coef::Rational(r)) => Coef::Rational(l.multiply(r)),
            (Coef::Rational(l), Coef::Approx(r)) => Coef::Approx(l.multiply(r)),
            (Coef::Approx(l), Coef::Rational(r)) => Coef::Approx(l.multiply(r)),
            (Coef::Approx(l), Coef::Approx(r)) => Coef::Approx(l.multiply(r)),
        }
    }

    /// Quotient of two coefficients, with the same degradation rule; the
    /// divisor must not have value zero.
    pub fn divide(self, rhs: Coef) -> (r: Coef)
        requires
            coef_wf(self@),
            coef_wf(rhs@),
            rhs@.num != 0,
            coef_div_fits(self@, rhs@),
        ensures
            r@ == coef_div(self@, rhs@),
            coef_wf(r@),
    {
        match (self, rhs) {
            (Coef::Rational(l), Coef::Rational(r)) => Coef::Rational(l.divide(r)),
            (Coef::Rational(l), Coef::Approx(r)) => Coef::Approx(l.divide(r)),
            (Coef::Approx(l), Coef::Rational(r)) => Coef::Approx(l.divide(r)),
            (Coef::Approx(l), Coef::Approx(r)) => Coef::Approx(l.divide(r)),
        }
    }

    /// The product, or `None` where a raw part would exceed the machine
    /// word.
    pub fn checked_multiply(self, rhs: Coef) -> (r: Option<Coef>)
        requires
            coef_wf(self@),
            coef_wf(rhs@),
        ensures
            match r {
                Some(c) => coef_mul_fits(self@, rhs@) && c@ == coef_mul(self@, rhs@) && coef_wf(
                    c@,
                ),
                None => !coef_mul_fits(self@, rhs@),
            },
    {
        let a = self.value();
        let b = rhs.value();
        match (a.numerator.checked_mul(b.numerator), a.denominator.checked_mul(b.denominator)) {
            (Some(_), Some(_)) => Some(self.multiply(rhs)),
            _ => None,
        }
    }

    /// The quotient, or `None` where a raw part would exceed the machine
    /// word; the divisor must not have value zero.
    pub fn checked_divide(self, rhs: Coef) -> (r: Option<Coef>)
        requires
            coef_wf(self@),
            coef_wf(rhs@),
            rhs@.num != 0,
        ensures
            match r {
                Some(c) => coef_div_fits(self@, rhs@) && c@ == coef_div(self@, rhs@) && coef_wf(
                    c@,
                ),
                None => !coef_div_fits(self@, rhs@),
            },
    {
        let a = self.value();
        let b = rhs.value();
        match (a.numerator.checked_mul(b.denominator), a.denominator.checked_mul(b.numerator)) {
            (Some(_), Some(_)) => Some(self.divide(rhs)),
            _ => None,
        }
    }
}

/// A symbolic unit expression.
#[derive(Debug)]
pub enum UnitExpr {
    /// A fundamental unit with no definition of its own.
    Basic(Basic),
    /// A product of atoms divided by a product of atoms; duplicates stand
    /// for powers and order only affects display.
    Div(Vec<Basic>, Vec<Basic>),
    /// A coefficient scaling an inner expression.
    Coef(Coef, Box<UnitExpr>),
}

/// Mathematical content of a `UnitExpr`, over atom names.
pub enum UnitExprV {
    Basic(Seq<char>),
    Div(Seq<Seq<char>>, Seq<Seq<char>>),
    Coef(CoefV, Box<UnitExprV>),
}

/// The names of a list of atoms.
pub open spec fn names(v: Seq<Basic>) -> Seq<Seq<char>> {
    v.map_values(|b: Basic| b@)
}

/// The content of a unit expression.
pub open spec fn expr_view(e: UnitExpr) -> UnitExprV
    decreases e,
{
    match e {
        UnitExpr::Basic(b) => UnitExprV::Basic(b@),
        UnitExpr::Div(n, d) => UnitExprV::Div(names(n@), names(d@)),
        UnitExpr::Coef(c, inner) => UnitExprV::Coef(c@, Box::new(expr_view(*inner))),
    }
}

impl View for UnitExpr {
    type V = UnitExprV;

    open spec fn view(&self) -> UnitExprV {
        expr_view(*self)
    }
}

/// The coefficient factored out of an expression; a bare expression has
/// the identity.
pub open spec fn coef_of(e: UnitExprV) -> CoefV {
    match e {
        UnitExprV::Coef(c, _) => c,
        _ => coef_one(),
    }
}

/// The expression under any coefficient wrapper.
pub open spec fn strip_coef(e: UnitExprV) -> UnitExprV {
    match e {
        UnitExprV::Coef(_, inner) => *inner,
        _ => e,
    }
}

/// Numerator atoms of an expression; a bare atom counts as a one-atom
/// numerator.
pub open spec fn nums_of(e: UnitExprV) -> Seq<Seq<char>>
    decreases e,
{
    match e {
        UnitExprV::Basic(nm) => seq![nm],
        UnitExprV::Div(n, _) => n,
        UnitExprV::Coef(_, inner) => nums_of(*inner),
    }
}

/// Denominator atoms of an expression.
pub open spec fn dens_of(e: UnitExprV) -> Seq<Seq<char>>
    decreases e,
{
    match e {
        UnitExprV::Basic(_) => Seq::empty(),
        UnitExprV::Div(_, d) => d,
        UnitExprV::Coef(_, inner) => dens_of(*inner),
    }
}

/// A coefficient wrapper is never the identity, never wraps another
/// wrapper, and holds a well-formed coefficient.
pub open spec fn expr_wf(e: UnitExprV) -> bool {
    match e {
        UnitExprV::Coef(c, inner) => coef_wf(c) && !coef_is_unit(c) && !(*inner is Coef),
        _ => true,
    }
}

/// Position of the first atom equal to `x`, scanning from the front.
pub open spec fn find_in(d: Seq<Seq<char>>, x: Seq<char>) -> Option<int>
    decreases d.len(),
{
    if d.len() == 0 {
        None
    } else if d[0] == x {
        Some(0int)
    } else {
        match find_in(d.drop_first(), x) {
            Some(j) => Some(j + 1),
            None => None,
        }
    }
}

/// `find_in` returns the position of the first occurrence, or `None`
/// exactly when the atom does not occur.
pub proof fn lemma_find_in(d: Seq<Seq<char>>, x: Seq<char>)
    ensures
        match find_in(d, x) {
            Some(j) => 0 <= j < d.len() && d[j] == x && (forall|k: int| 0 <= k < j ==> d[k] != x),
            None => forall|k: int| 0 <= k < d.len() ==> d[k] != x,
        },
    decreases d.len(),
{
    if d.len() > 0 && d[0] != x {
        lemma_find_in(d.drop_first(), x);
        assert(forall|k: int| 1 <= k < d.len() ==> d[k] == d.drop_first()[k - 1]);
        match find_in(d.drop_first(), x) {
            Some(j) => {
                assert(d[j + 1] == d.drop_first()[j]);
            },
            None => {},
        }
    }
}

/// Cancellation of a unit quotient: each numerator atom in turn is struck
/// out together with the first equal denominator atom, until the two lists
/// share no atom.
pub open spec fn cancel(n: Seq<Seq<char>>, d: Seq<Seq<char>>) -> (Seq<Seq<char>>, Seq<Seq<char>>)
    decreases n.len(),
{
    if n.len() == 0 {
        (n, d)
    } else {
        match find_in(d, n[0]) {
            Some(j) => cancel(n.drop_first(), d.remove(j)),
            None => {
                let (rn, rd) = cancel(n.drop_first(), d);
                (seq![n[0]] + rn, rd)
            },
        }
    }
}

impl UnitExpr {
    /// Strikes out matched numerator and denominator atoms until none are
    /// left, keeping the survivors in their order.
    pub fn cancel_units(n: Vec<Basic>, d: Vec<Basic>) -> (r: (Vec<Basic>, Vec<Basic>))
        ensures
            names(r.0@) == cancel(names(n@), names(d@)).0,
            names(r.1@) == cancel(names(n@), names(d@)).1,
    {
        let ghost nv = names(n@);
        let ghost dv = names(d@);
        let mut out: Vec<Basic> = Vec::new();
        let mut d = d;
        let mut i: usize = 0;
        proof {
            assert(nv.skip(0) =~= nv);
            assert(names(out@) =~= Seq::<Seq<char>>::empty());
            assert(names(out@) + cancel(nv, dv).0 =~= cancel(nv, dv).0);
        }
        while i < n.len()
            invariant
                i <= n.len(),
                cancel(nv, dv).0 == names(out@) + cancel(nv.skip(i as int), names(d@)).0,
                cancel(nv, dv).1 == cancel(nv.skip(i as int), names(d@)).1,
                nv == names(n@),
            decreases n.len() - i,
        {
            let ghost rest = nv.skip(i as int);
            let ghost dv_cur = names(d@);
            proof {
                assert(rest[0] == n@[i as int]@);
                assert(rest.drop_first() =~= nv.skip(i as int + 1));
                lemma_find_in(dv_cur, rest[0]);
            }
            let mut j: usize = 0;
            let mut found = false;
            while j < d.len() && !found
                invariant
                    j <= d.len(),
                    !found ==> forall|k: int| 0 <= k < j ==> names(d@)[k] != n@[i as int]@,
                    found ==> j < d.len() && names(d@)[j as int] == n@[i as int]@ && (forall|
                        k: int,
                    |
                        0 <= k < j ==> names(d@)[k] != n@[i as int]@),
                    i < n.len(),
                    dv_cur == names(d@),
                decreases d.len() - j + if found {
                    0int
                } else {
                    1int
                },
            {
                if d[j].0 == n[i].0 {
                    found = true;
                } else {
                    j += 1;
                }
            }
            if found {
                proof {
                    match find_in(dv_cur, rest[0]) {
                        Some(fj) => {
                            assert(dv_cur[fj] == rest[0]);
                            assert(fj == j as int);
                        },
                        None => {
                            assert(dv_cur[j as int] == rest[0]);
                            assert(false);
                        },
                    }
                }
                d.remove(j);
                proof {
                    assert(names(d@) =~= dv_cur.remove(j as int));
                }
            } else {
                proof {
                    match find_in(dv_cur, rest[0]) {
                        Some(fj) => {
                            assert(dv_cur[fj] == rest[0]);
                            assert(false);
                        },
                        None => {},
                    }
                }
                let b = n[i].clone();
                out.push(b);
                proof {
                    let (rn, rd) = cancel(rest, dv_cur);
                    assert(names(out@) =~= names(out@.drop_last()) + seq![n@[i as int]@]);
                    assert(names(out@.drop_last()) + (seq![rest[0]] + rn) =~= names(out@) + rn);
                }
            }
            i += 1;
        }
        proof {
            assert(nv.skip(i as int) =~= Seq::<Seq<char>>::empty());
            assert(cancel(nv.skip(i as int), names(d@)).0 =~= Seq::<Seq<char>>::empty());
            assert(names(out@) + Seq::<Seq<char>>::empty() =~= names(out@));
        }
        (out, d)
    }

    /// Splits an expression into its coefficient and the bare expression
    /// under it; a bare expression pairs with the identity.
    pub fn factor_out_coef(self) -> (r: (Coef, UnitExpr))
        ensures
            r.0@ == coef_of(self@),
            r.1@ == strip_coef(self@),
    {
        match self {
            UnitExpr::Basic(_) => (Coef::unit(), self),
            UnitExpr::Div(_, _) => (Coef::unit(), self),
            UnitExpr::Coef(x, e) => (x, *e),
        }
    }

    /// The one constructor for combination results: cancels the atom
    /// lists, then wraps the quotient in the coefficient unless that
    /// coefficient is the identity.
    pub fn make(c: Coef, n: Vec<Basic>, d: Vec<Basic>) -> (r: UnitExpr)
        ensures
            r@ == spec_make(c@, names(n@), names(d@)),
    {
        let ghost nv = names(n@);
        let ghost dv = names(d@);
        let (n2, d2) = Self::cancel_units(n, d);
        proof {
            assert(names(n2@) == cancel(nv, dv).0);
            assert(names(d2@) == cancel(nv, dv).1);
        }
        let e = UnitExpr::Div(n2, d2);
        proof {
            assert(e@ == UnitExprV::Div(cancel(nv, dv).0, cancel(nv, dv).1));
        }
        if c.is_unit() {
            e
        } else {
            let r = UnitExpr::Coef(c, Box::new(e));
            proof {
                assert(r@->Coef_1 == Box::new(UnitExprV::Div(cancel(nv, dv).0, cancel(nv, dv).1)));
            }
            r
        }
    }

    /// The product of two unit expressions: coefficients multiply, atom
    /// lists concatenate side by side, and matched atoms cancel.
    pub fn multiply(self, rhs: UnitExpr) -> (r: UnitExpr)
        requires
            expr_wf(self@),
            expr_wf(rhs@),
            coef_mul_fits(coef_of(self@), coef_of(rhs@)),
        ensures
            r@ == spec_multiply(self@, rhs@),
            expr_wf(r@),
    {
        let ghost av = self@;
        let ghost bv = rhs@;
        let (lf, l) = self.factor_out_coef();
        let (rf, rr) = rhs.factor_out_coef();
        let c = lf.multiply(rf);
        proof {
            lemma_names_concat();
            lemma_strip_parts(av);
            lemma_strip_parts(bv);
        }
        let (n, d) = match (l, rr) {
            (UnitExpr::Div(mut ln, mut ld), UnitExpr::Div(mut rn, mut rd)) => {
                ln.append(&mut rn);
                ld.append(&mut rd);
                (ln, ld)
            },
            (UnitExpr::Basic(b), UnitExpr::Div(rn, rd)) => {
                let mut n: Vec<Basic> = Vec::new();
                n.push(b);
                proof {
                    assert(names(n@) =~= seq![b@]);
                }
                let mut rn = rn;
                n.append(&mut rn);
                (n, rd)
            },
            (UnitExpr::Div(mut ln, ld), UnitExpr::Basic(b)) => {
                proof {
                    assert(names(ln@.push(b)) =~= names(ln@) + seq![b@]);
                    assert(dens_of(bv) =~= Seq::<Seq<char>>::empty());
                    assert(names(ld@) + dens_of(bv) =~= names(ld@));
                    assert(names(ln@) + seq![b@] == nums_of(av) + nums_of(bv));
                }
                ln.push(b);
                (ln, ld)
            },
            (UnitExpr::Basic(lb), UnitExpr::Basic(rb)) => {
                let mut n: Vec<Basic> = Vec::new();
                n.push(lb);
                n.push(rb);
                let d: Vec<Basic> = Vec::new();
                proof {
                    assert(names(n@) =~= seq![lb@] + seq![rb@]);
                    assert(names(d@) =~= Seq::<Seq<char>>::empty());
                    assert(names(d@) =~= dens_of(av) + dens_of(bv));
                }
                (n, d)
            },
            _ => unreached(),
        };
        proof {
            assert(names(n@) == nums_of(av) + nums_of(bv));
            assert(names(d@) == dens_of(av) + dens_of(bv));
        }
        UnitExpr::make(c, n, d)
    }

    /// The quotient of two unit expressions: coefficients divide, and the
    /// divisor's atoms join the opposite sides before cancellation.
    pub fn divide(self, rhs: UnitExpr) -> (r: UnitExpr)
        requires
            expr_wf(self@),
            expr_wf(rhs@),
            coef_of(rhs@).num != 0,
            coef_div_fits(coef_of(self@), coef_of(rhs@)),
        ensures
            r@ == spec_divide(self@, rhs@),
            expr_wf(r@),
    {
        let ghost av = self@;
        let ghost bv = rhs@;
        let (lf, l) = self.factor_out_coef();
        let (rf, rr) = rhs.factor_out_coef();
        let c = lf.divide(rf);
        proof {
            lemma_names_concat();
            lemma_strip_parts(av);
            lemma_strip_parts(bv);
        }
        let (n, d) = match (l, rr) {
            (UnitExpr::Div(mut ln, mut ld), UnitExpr::Div(mut rn, mut rd)) => {
                ln.append(&mut rd);
                ld.append(&mut rn);
                (ln, ld)
            },
            (UnitExpr::Basic(b), UnitExpr::Div(rn, rd)) => {
                let mut n: Vec<Basic> = Vec::new();
                n.push(b);
                proof {
                    assert(names(n@) =~= seq![b@]);
                }
                let mut rd = rd;
                n.append(&mut rd);
                (n, rn)
            },
            (UnitExpr::Div(ln, mut ld), UnitExpr::Basic(b)) => {
                proof {
                    assert(names(ld@.push(b)) =~= names(ld@) + seq![b@]);
                    assert(nums_of(bv) =~= seq![b@]);
                    assert(names(ln@) + dens_of(bv) =~= names(ln@));
                }
                ld.push(b);
                (ln, ld)
            },
            (UnitExpr::Basic(lb), UnitExpr::Basic(rb)) => {
                let mut n: Vec<Basic> = Vec::new();
                n.push(lb);
                let mut d: Vec<Basic> = Vec::new();
                d.push(rb);
                proof {
                    assert(names(n@) =~= seq![lb@] + Seq::<Seq<char>>::empty());
                    assert(names(d@) =~= Seq::<Seq<char>>::empty() + seq![rb@]);
                }
                (n, d)
            },
            _ => unreached(),
        };
        proof {
            assert(names(n@) == nums_of(av) + dens_of(bv));
            assert(names(d@) == dens_of(av) + nums_of(bv));
        }
        UnitExpr::make(c, n, d)
    }
}

/// Factoring out the coefficient leaves the atom lists unchanged.
pub proof fn lemma_strip_parts(e: UnitExprV)
    ensures
        nums_of(strip_coef(e)) == nums_of(e),
        dens_of(strip_coef(e)) == dens_of(e),
{
}

/// Mapping atom lists to their names commutes with concatenation.
pub proof fn lemma_names_concat()
    ensures
        forall|a: Seq<Basic>, b: Seq<Basic>| #[trigger] names(a + b) == names(a) + names(b),
{
    assert forall|a: Seq<Basic>, b: Seq<Basic>| #[trigger] names(a + b) == names(a) + names(
        b,
    ) by {
        assert(names(a + b) =~= names(a) + names(b));
    }
}

/// The expression `make` builds: the cancelled quotient, wrapped in the
/// coefficient unless that coefficient is the identity.
pub open spec fn spec_make(c: CoefV, n: Seq<Seq<char>>, d: Seq<Seq<char>>) -> UnitExprV {
    let (rn, rd) = cancel(n, d);
    if coef_is_unit(c) {
        UnitExprV::Div(rn, rd)
    } else {
        UnitExprV::Coef(c, Box::new(UnitExprV::Div(rn, rd)))
    }
}

/// The content of the product of two expressions.
pub open spec fn spec_multiply(a: UnitExprV, b: UnitExprV) -> UnitExprV {
    spec_make(coef_mul(coef_of(a), coef_of(b)), nums_of(a) + nums_of(b), dens_of(a) + dens_of(b))
}

/// The content of the quotient of two expressions.
pub open spec fn spec_divide(a: UnitExprV, b: UnitExprV) -> UnitExprV {
    spec_make(coef_div(coef_of(a), coef_of(b)), nums_of(a) + dens_of(b), dens_of(a) + nums_of(b))
}

/// A copy of an atom list with the same names.
pub fn clone_atoms(v: &Vec<Basic>) -> (r: Vec<Basic>)
    ensures
        names(r@) == names(v@),
{
    let mut r: Vec<Basic> = Vec::new();
    let mut i: usize = 0;
    while i < v.len()
        invariant
            i <= v.len(),
            names(r@) == names(v@.take(i as int)),
        decreases v.len() - i,
    {
        let b = v[i].clone();
        r.push(b);
        proof {
            assert(names(r@) =~= names(r@.drop_last()) + seq![v@[i as int]@]);
            assert(names(v@.take(i as int + 1)) =~= names(v@.take(i as int)) + seq![
                v@[i as int]@,
            ]);
        }
        i += 1;
    }
    proof {
        assert(v@.take(v@.len() as int) =~= v@);
    }
    r
}

/// A copy of an expression with the same content.
pub fn clone_expr(e: &UnitExpr) -> (r: UnitExpr)
    ensures
        r@ == e@,
    decreases *e,
{
    match e {
        UnitExpr::Basic(b) => UnitExpr::Basic(b.clone()),
        UnitExpr::Div(n, d) => UnitExpr::Div(clone_atoms(n), clone_atoms(d)),
        UnitExpr::Coef(c, inner) => UnitExpr::Coef(*c, Box::new(clone_expr(inner))),
    }
}

impl Clone for UnitExpr {
    fn clone(&self) -> (r: Self)
        ensures
            r@ == self@,
    {
        clone_expr(self)
    }
}

/// The decimal digit character for `n` below ten.
pub open spec fn dec_digit(n: nat) -> char {
    if n == 0 {
        '0'
    } else if n == 1 {
        '1'
    } else if n == 2 {
        '2'
    } else if n == 3 {
        '3'
    } else if n == 4 {
        '4'
    } else if n == 5 {
        '5'
    } else if n == 6 {
        '6'
    } else if n == 7 {
        '7'
    } else if n == 8 {
        '8'
    } else {
        '9'
    }
}

/// The decimal digits of `n`, most significant first.
pub open spec fn dec_rep(n: nat) -> Seq<char>
    decreases n,
{
    if n < 10 {
        seq![dec_digit(n)]
    } else {
        dec_rep(n / 10) + seq![dec_digit(n % 10)]
    }
}

/// How a coefficient renders: the fraction as `num|den` digits, led by a
/// tilde when the value is only approximate.
pub open spec fn render_coef(c: CoefV) -> Seq<char> {
    (if c.exact {
        Seq::<char>::empty()
    } else {
        seq!['~']
    }) + dec_rep(c.num) + seq!['|'] + dec_rep(c.den)
}

/// How a list of atoms renders: each name followed by one space.
pub open spec fn render_atoms(ns: Seq<Seq<char>>) -> Seq<char>
    decreases ns.len(),
{
    if ns.len() == 0 {
        Seq::<char>::empty()
    } else {
        ns[0] + seq![' '] + render_atoms(ns.drop_first())
    }
}

/// How an expression renders: the numerator atoms (a lone `1` where the
/// numerator is empty but the denominator is not), then `/` and the
/// denominator atoms if any, with any coefficient in front.
pub open spec fn render_expr(e: UnitExprV) -> Seq<char>
    decreases e,
{
    match e {
        UnitExprV::Basic(nm) => nm,
        UnitExprV::Div(n, d) => (if n.len() == 0 {
            if d.len() > 0 {
                seq!['1', ' ']
            } else {
                Seq::<char>::empty()
            }
        } else {
            render_atoms(n)
        }) + (if d.len() > 0 {
            seq!['/', ' '] + render_atoms(d)
        } else {
            Seq::<char>::empty()
        }),
        UnitExprV::Coef(c, inner) => render_coef(c) + seq![' '] + render_expr(*inner),
    }
}

/// The decimal digit of `n` below ten, as a one-character string.
fn digit_str(n: usize) -> (r: &'static str)
    requires
        n < 10,
    ensures
        r@ == seq![dec_digit(n as nat)],
{
    proof {
        reveal_strlit("0");
        reveal_strlit("1");
        reveal_strlit("2");
        reveal_strlit("3");
        reveal_strlit("4");
        reveal_strlit("5");
        reveal_strlit("6");
        reveal_strlit("7");
        reveal_strlit("8");
        reveal_strlit("9");
    }
    match n {
        0 => "0",
        1 => "1",
        2 => "2",
        3 => "3",
        4 => "4",
        5 => "5",
        6 => "6",
        7 => "7",
        8 => "8",
        _ => "9",
    }
}

/// Appends the decimal digits of `n`.
fn push_decimal(s: &mut String, n: usize)
    ensures
        final(s)@ == old(s)@ + dec_rep(n as nat),
    decreases n,
{
    if n < 10 {
        s.append(digit_str(n));
    } else {
        push_decimal(s, n / 10);
        s.append(digit_str(n % 10));
        proof {
            assert(old(s)@ + dec_rep(n as nat / 10) + seq![dec_digit(n as nat % 10)] =~= old(s)@
                + dec_rep(n as nat));
        }
    }
}

/// Appends each atom name followed by one space.
fn push_atoms(s: &mut String, v: &Vec<Basic>)
    ensures
        final(s)@ == old(s)@ + render_atoms(names(v@)),
{
    let ghost ns = names(v@);
    let mut i: usize = 0;
    proof {
        reveal_strlit(" ");
        assert(ns.skip(0) =~= ns);
    }
    while i < v.len()
        invariant
            i <= v.len(),
            ns == names(v@),
            s@ + render_atoms(ns.skip(i as int)) == old(s)@ + render_atoms(ns),
        decreases v.len() - i,
    {
        let ghost pre = s@;
        s.append(v[i].0.as_str());
        s.append(" ");
        proof {
            reveal_strlit(" ");
            assert(ns.skip(i as int).drop_first() =~= ns.skip(i as int + 1));
            assert(ns.skip(i as int)[0] == v@[i as int]@);
            let a = v@[i as int]@;
            let sp = seq![' '];
            let r = render_atoms(ns.skip(i as int + 1));
            assert(render_atoms(ns.skip(i as int)) == ns.skip(i as int)[0] + sp + r);
            assert(s@ == pre + a + " "@);
            assert(s@ =~= pre + a + sp);
            assert(s@ + r =~= pre + (a + sp + r));
            assert(a + sp + r == render_atoms(ns.skip(i as int)));
        }
        i += 1;
    }
    proof {
        assert(ns.skip(v@.len() as int) =~= Seq::<Seq<char>>::empty());
        assert(s@ + Seq::<char>::empty() =~= s@);
    }
}

/// Appends the rendering of a coefficient.
fn push_coef(s: &mut String, c: &Coef)
    ensures
        final(s)@ == old(s)@ + render_coef(c@),
{
    proof {
        reveal_strlit("~");
        reveal_strlit("|");
    }
    if !c.is_exact() {
        s.append("~");
    }
    let v = c.value();
    push_decimal(s, v.numerator);
    s.append("|");
    push_decimal(s, v.denominator);
    proof {
        assert(s@ =~= old(s)@ + render_coef(c@));
    }
}

impl UnitExpr {
    /// The display form of this expression: numerator atoms space
    /// separated, a lone `1` standing in for an empty numerator over a
    /// nonempty denominator, `/` before any denominator atoms, and the
    /// coefficient, if any, in front.
    pub fn to_display_string(&self) -> (s: String)
        ensures
            s@ == render_expr(self@),
        decreases *self,
    {
        match self {
            UnitExpr::Basic(b) => b.0.clone(),
            UnitExpr::Div(n, d) => {
                let mut s = String::new();
                proof {
                    reveal_strlit("1 ");
                    reveal_strlit("/ ");
                }
                if n.len() == 0 {
                    if d.len() > 0 {
                        s.append("1 ");
                        proof {
                            assert("1 "@ =~= seq!['1', ' ']);
                        }
                    }
                } else {
                    push_atoms(&mut s, n);
                }
                let ghost first = s@;
                if d.len() > 0 {
                    s.append("/ ");
                    proof {
                        assert(s@ =~= first + seq!['/', ' ']);
                    }
                    push_atoms(&mut s, d);
                }
                proof {
                    assert(names(n@).len() == 0 <==> n@.len() == 0);
                    assert(names(d@).len() == 0 <==> d@.len() == 0);
                    assert(s@ =~= render_expr(self@));
                }
                s
            },
            UnitExpr::Coef(c, inner) => {
                let mut s = String::new();
                proof {
                    reveal_strlit(" ");
                }
                push_coef(&mut s, c);
                s.append(" ");
                let t = (&**inner).to_display_string();
                s.append(t.as_str());
                proof {
                    assert(s@ =~= render_expr(self@));
                }
                s
            },
        }
    }
}

/// How cancellation acts on atom counts: each side keeps at most its own
/// count of an atom, the difference of the two counts is preserved, and no
/// atom survives on both sides.
pub proof fn lemma_cancel_counts(n: Seq<Seq<char>>, d: Seq<Seq<char>>)
    ensures
        forall|x: Seq<char>| #[trigger] cancel(n, d).0.to_multiset().count(x)
            <= n.to_multiset().count(x),
        forall|x: Seq<char>| #[trigger] cancel(n, d).1.to_multiset().count(x)
            <= d.to_multiset().count(x),
        forall|x: Seq<char>| #[trigger] cancel(n, d).0.to_multiset().count(x) - cancel(
            n,
            d,
        ).1.to_multiset().count(x) == n.to_multiset().count(x) - d.to_multiset().count(x),
        forall|x: Seq<char>| #[trigger] cancel(n, d).0.to_multiset().count(x) == 0 || cancel(
            n,
            d,
        ).1.to_multiset().count(x) == 0,
    decreases n.len(),
{
    broadcast use vstd::multiset::group_multiset_axioms;

    if n.len() > 0 {
        lemma_find_in(d, n[0]);
        assert(n.drop_first() =~= n.remove(0));
        match find_in(d, n[0]) {
            Some(j) => {
                lemma_cancel_counts(n.drop_first(), d.remove(j));
                assert(n.remove(0).to_multiset() =~= n.to_multiset().remove(n[0]));
                assert(d.remove(j).to_multiset() =~= d.to_multiset().remove(d[j]));
                assert(cancel(n, d) == cancel(n.drop_first(), d.remove(j)));
                assert forall|x: Seq<char>|
                    #[trigger] cancel(n, d).0.to_multiset().count(x) - cancel(
                        n,
                        d,
                    ).1.to_multiset().count(x) == n.to_multiset().count(x)
                        - d.to_multiset().count(x) by {
                    assert(n.to_multiset().count(n[0]) > 0);
                    assert(d.to_multiset().count(d[j]) > 0);
                    if x == n[0] {
                        assert(n.drop_first().to_multiset().count(x) == n.to_multiset().count(x)
                            - 1);
                        assert(d.remove(j).to_multiset().count(x) == d.to_multiset().count(x) - 1);
                    } else {
                        assert(n.drop_first().to_multiset().count(x) == n.to_multiset().count(x));
                        assert(d.remove(j).to_multiset().count(x) == d.to_multiset().count(x));
                    }
                }
            },
            None => {
                lemma_cancel_counts(n.drop_first(), d);
                let (rn, rd) = cancel(n.drop_first(), d);
                assert(cancel(n, d) == ((seq![n[0]] + rn), rd));
                assert((seq![n[0]] + rn).to_multiset() =~= rn.to_multiset().insert(n[0])) by {
                    assert(seq![n[0]] + rn =~= rn.insert(0, n[0]));
                }
                assert(d.to_multiset().count(n[0]) == 0) by {
                    if d.to_multiset().count(n[0]) > 0 {
                        assert(d.contains(n[0]));
                        let k = choose|k: int| 0 <= k < d.len() && d[k] == n[0];
                        assert(false);
                    }
                }
                assert(n.remove(0).to_multiset() =~= n.to_multiset().remove(n[0]));
                assert(n.to_multiset().count(n[0]) > 0);
                assert forall|x: Seq<char>|
                    #[trigger] cancel(n, d).0.to_multiset().count(x) == 0 || cancel(
                        n,
                        d,
                    ).1.to_multiset().count(x) == 0 by {
                    if x == n[0] {
                        assert(rd.to_multiset().count(x) <= d.to_multiset().count(x));
                    } else {
                        assert(cancel(n, d).0.to_multiset().count(x) == rn.to_multiset().count(x));
                    }
                }
            },
        }
    }
}

/// Cancellation of two lists that share no atom changes nothing.
pub proof fn lemma_cancel_fixed(n: Seq<Seq<char>>, d: Seq<Seq<char>>)
    requires
        forall|x: Seq<char>| #[trigger] n.to_multiset().count(x) == 0 || d.to_multiset().count(x)
            == 0,
    ensures
        cancel(n, d) == (n, d),
    decreases n.len(),
{
    broadcast use vstd::multiset::group_multiset_axioms;

    if n.len() > 0 {
        lemma_find_in(d, n[0]);
        assert(n.to_multiset().count(n[0]) > 0);
        match find_in(d, n[0]) {
            Some(j) => {
                assert(d.to_multiset().count(d[j]) > 0);
                assert(false);
            },
            None => {},
        }
        assert(n.drop_first() =~= n.remove(0));
        assert(n.remove(0).to_multiset() =~= n.to_multiset().remove(n[0]));
        assert forall|x: Seq<char>|
            #[trigger] n.drop_first().to_multiset().count(x) == 0 || d.to_multiset().count(x)
                == 0 by {
            assert(n.drop_first().to_multiset().count(x) <= n.to_multiset().count(x));
        }
        lemma_cancel_fixed(n.drop_first(), d);
        assert(seq![n[0]] + n.drop_first() =~= n);
    }
}

/// Cancellation is idempotent: cancelling an already cancelled quotient is
/// the identity.
pub proof fn lemma_cancel_idempotent(n: Seq<Seq<char>>, d: Seq<Seq<char>>)
    ensures
        cancel(cancel(n, d).0, cancel(n, d).1) == cancel(n, d),
{
    lemma_cancel_counts(n, d);
    lemma_cancel_fixed(cancel(n, d).0, cancel(n, d).1);
}

/// What `spec_make` builds, taken apart: the cancelled atom lists and, as
/// coefficient, either the given one or the identity it elided.
pub proof fn lemma_make_parts(c: CoefV, n: Seq<Seq<char>>, d: Seq<Seq<char>>)
    ensures
        nums_of(spec_make(c, n, d)) == cancel(n, d).0,
        dens_of(spec_make(c, n, d)) == cancel(n, d).1,
        coef_of(spec_make(c, n, d)) == if coef_is_unit(c) {
            coef_one()
        } else {
            c
        },
        expr_wf(spec_make(c, n, d)) || coef_is_unit(c) || !coef_wf(c),
        strip_coef(spec_make(c, n, d)) == UnitExprV::Div(cancel(n, d).0, cancel(n, d).1),
{
    let (rn, rd) = cancel(n, d);
    let inner = UnitExprV::Div(rn, rd);
    assert(nums_of(inner) == rn);
    assert(dens_of(inner) == rd);
    assert(*Box::new(inner) == inner);
    if !coef_is_unit(c) {
        assert(spec_make(c, n, d) == UnitExprV::Coef(c, Box::new(inner)));
        assert(nums_of(UnitExprV::Coef(c, Box::new(inner))) == nums_of(inner));
        assert(dens_of(UnitExprV::Coef(c, Box::new(inner))) == dens_of(inner));
    }
}

/// Multiplication of unit expressions is commutative up to atom order:
/// both products carry the same coefficient and the same multisets of
/// surviving numerator and denominator atoms.
pub proof fn lemma_multiply_commutes(a: UnitExprV, b: UnitExprV)
    ensures
        coef_of(spec_multiply(a, b)) == coef_of(spec_multiply(b, a)),
        nums_of(spec_multiply(a, b)).to_multiset() == nums_of(spec_multiply(b, a)).to_multiset(),
        dens_of(spec_multiply(a, b)).to_multiset() == dens_of(spec_multiply(b, a)).to_multiset(),
{
    broadcast use vstd::multiset::group_multiset_axioms;

    let ca = coef_of(a);
    let cb = coef_of(b);
    assert(ca.num * cb.num == cb.num * ca.num && ca.den * cb.den == cb.den * ca.den);
    assert(coef_mul(ca, cb) == coef_mul(cb, ca));
    let n1 = nums_of(a) + nums_of(b);
    let d1 = dens_of(a) + dens_of(b);
    let n2 = nums_of(b) + nums_of(a);
    let d2 = dens_of(b) + dens_of(a);
    vstd::seq_lib::lemma_seq_union_to_multiset_commutative(nums_of(a), nums_of(b));
    vstd::seq_lib::lemma_seq_union_to_multiset_commutative(dens_of(a), dens_of(b));
    lemma_cancel_counts(n1, d1);
    lemma_cancel_counts(n2, d2);
    assert forall|x: Seq<char>| #[trigger] cancel(n1, d1).0.to_multiset().count(x) == cancel(
        n2,
        d2,
    ).0.to_multiset().count(x) by {
        assert(n1.to_multiset().count(x) == n2.to_multiset().count(x));
        assert(d1.to_multiset().count(x) == d2.to_multiset().count(x));
    }
    assert forall|x: Seq<char>| #[trigger] cancel(n1, d1).1.to_multiset().count(x) == cancel(
        n2,
        d2,
    ).1.to_multiset().count(x) by {
        assert(n1.to_multiset().count(x) == n2.to_multiset().count(x));
        assert(d1.to_multiset().count(x) == d2.to_multiset().count(x));
        assert(cancel(n1, d1).0.to_multiset().count(x) == cancel(n2, d2).0.to_multiset().count(x));
    }
    assert(cancel(n1, d1).0.to_multiset() =~= cancel(n2, d2).0.to_multiset());
    assert(cancel(n1, d1).1.to_multiset() =~= cancel(n2, d2).1.to_multiset());
    let cm = coef_mul(ca, cb);
    lemma_make_parts(cm, n1, d1);
    lemma_make_parts(cm, n2, d2);
}

/// Dividing a unit expression by itself yields the dimensionless identity:
/// empty numerator, empty denominator, and the identity coefficient, so no
/// wrapper at all.  This holds for expressions whose coefficient is exact
/// and nonzero; an approximate coefficient never divides to the identity.
pub proof fn lemma_divide_self(e: UnitExprV)
    requires
        coef_of(e).exact,
        0 < coef_of(e).num,
        0 < coef_of(e).den,
    ensures
        spec_divide(e, e) == UnitExprV::Div(Seq::<Seq<char>>::empty(), Seq::<Seq<char>>::empty()),
{
    broadcast use vstd::multiset::group_multiset_axioms;

    let c = coef_of(e);
    let k = c.num * c.den;
    assert(k > 0) by (nonlinear_arith)
        requires
            k == c.num * c.den,
            c.num > 0,
            c.den > 0,
    ;
    vstd::arithmetic::div_mod::lemma_mod_self_0(k as int);
    assert(gcd(k, k) == gcd(k, 0));
    assert(gcd(k, 0) == k);
    vstd::arithmetic::div_mod::lemma_div_by_self(k as int);
    assert(c.den * c.num == k) by (nonlinear_arith)
        requires
            k == c.num * c.den,
    ;
    assert(coef_div(c, c) == coef_one()) by {
        assert(reduced_num(k, k) == 1 && reduced_den(k, k) == 1);
    }
    let n = nums_of(e) + dens_of(e);
    let d = dens_of(e) + nums_of(e);
    vstd::seq_lib::lemma_seq_union_to_multiset_commutative(nums_of(e), dens_of(e));
    lemma_cancel_counts(n, d);
    let (rn, rd) = cancel(n, d);
    assert forall|x: Seq<char>|
        #[trigger] rn.to_multiset().count(x) == 0 && rd.to_multiset().count(x) == 0 by {
        assert(n.to_multiset().count(x) == d.to_multiset().count(x));
    }
    assert(rn.to_multiset() =~= Multiset::<Seq<char>>::empty());
    assert(rd.to_multiset() =~= Multiset::<Seq<char>>::empty());
    assert(rn.len() == rn.to_multiset().len());
    assert(rd.len() == rd.to_multiset().len());
    vstd::multiset::lemma_multiset_empty_len(rn.to_multiset());
    vstd::multiset::lemma_multiset_empty_len(rd.to_multiset());
    assert(rn =~= Seq::<Seq<char>>::empty());
    assert(rd =~= Seq::<Seq<char>>::empty());
}

} // verus!
