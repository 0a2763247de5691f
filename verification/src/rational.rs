//! Exact nonnegative fractions kept in lowest terms.
//!
//! `Rational` is the exact half of the engine's scale factors: a pair of
//! machine words `numerator / denominator` with a positive denominator,
//! reduced by the greatest common divisor on every construction.

use vstd::arithmetic::div_mod::{
    lemma_div_multiples_vanish, lemma_div_pos_is_pos, lemma_fundamental_div_mod,
};
use vstd::prelude::*;

verus! {

/// Greatest common divisor by the Euclidean recurrence; `gcd(a, 0) == a`.
pub open spec fn gcd(a: nat, b: nat) -> nat
    decreases b,
{
    if b == 0 {
        a
    } else {
        gcd(b, a % b)
    }
}

/// `d` divides `n`: some whole multiple of `d` equals `n`.
pub open spec fn divides(d: nat, n: nat) -> bool {
    exists|k: nat| n == #[trigger] (d * k)
}

/// Numerator of `n / d` after reduction by the greatest common divisor.
pub open spec fn reduced_num(n: nat, d: nat) -> nat {
    n / gcd(n, d)
}

/// Denominator of `n / d` after reduction by the greatest common divisor.
pub open spec fn reduced_den(n: nat, d: nat) -> nat {
    d / gcd(n, d)
}

/// The greatest common divisor divides both of its arguments.
pub proof fn lemma_gcd_divides(a: nat, b: nat)
    ensures
        divides(gcd(a, b), a),
        divides(gcd(a, b), b),
    decreases b,
{
    if b == 0 {
        assert(a == gcd(a, b) * 1);
        assert(b == gcd(a, b) * 0);
    } else {
        lemma_gcd_divides(b, a % b);
        let g = gcd(b, a % b);
        let k1 = choose|k: nat| b == #[trigger] (g * k);
        let k2 = choose|k: nat| a % b == #[trigger] (g * k);
        lemma_fundamental_div_mod(a as int, b as int);
        let q = a as int / b as int;
        lemma_div_pos_is_pos(a as int, b as int);
        assert(a as int == g as int * (q * k1 + k2)) by (nonlinear_arith)
            requires
                a as int == (b as int) * q + (a % b) as int,
                b as int == g as int * k1 as int,
                (a % b) as int == g as int * k2 as int,
        ;
        assert(q * k1 + k2 >= 0) by (nonlinear_arith)
            requires
                q >= 0,
                k1 >= 0,
                k2 >= 0,
        ;
        assert(a == g * ((q * k1 + k2) as nat));
    }
}

/// The greatest common divisor is positive unless both arguments are zero.
pub proof fn lemma_gcd_pos(a: nat, b: nat)
    ensures
        a > 0 || b > 0 ==> gcd(a, b) > 0,
        gcd(0, 0) == 0,
    decreases b,
{
    if b != 0 {
        lemma_gcd_pos(b, a % b);
    }
}

/// Every common divisor of `a` and `b` divides their greatest common divisor.
pub proof fn lemma_common_divisor_divides_gcd(a: nat, b: nat, c: nat)
    requires
        divides(c, a),
        divides(c, b),
    ensures
        divides(c, gcd(a, b)),
    decreases b,
{
    if b != 0 {
        let ka = choose|k: nat| a == #[trigger] (c * k);
        let kb = choose|k: nat| b == #[trigger] (c * k);
        assert(c > 0) by (nonlinear_arith)
            requires
                b as int == c as int * kb as int,
                b > 0,
        ;
        lemma_fundamental_div_mod(a as int, b as int);
        let q = a as int / b as int;
        let m = ka - q * kb;
        assert(c as int * m == (a % b) as int) by (nonlinear_arith)
            requires
                a as int == (b as int) * q + (a % b) as int,
                a as int == c as int * ka as int,
                b as int == c as int * kb as int,
                m == ka - q * kb,
        ;
        assert(m >= 0) by (nonlinear_arith)
            requires
                c as int * m == (a % b) as int,
                c > 0,
                (a % b) as int >= 0,
        ;
        assert(a % b == c * (m as nat));
        lemma_common_divisor_divides_gcd(b, a % b, c);
    }
}

/// Dividing both parts of a fraction by their greatest common divisor
/// leaves two numbers with no common divisor beyond one.
pub proof fn lemma_reduced_by_gcd(a: nat, b: nat)
    requires
        a > 0 || b > 0,
    ensures
        gcd(a / gcd(a, b), b / gcd(a, b)) == 1,
{
    let g = gcd(a, b);
    lemma_gcd_pos(a, b);
    lemma_gcd_divides(a, b);
    let ka = choose|k: nat| a == #[trigger] (g * k);
    let kb = choose|k: nat| b == #[trigger] (g * k);
    lemma_div_multiples_vanish(ka as int, g as int);
    lemma_div_multiples_vanish(kb as int, g as int);
    assert(a / g == ka && b / g == kb);
    assert(ka > 0 || kb > 0) by (nonlinear_arith)
        requires
            a == g * ka,
            b == g * kb,
            a > 0 || b > 0,
    ;
    let h = gcd(ka, kb);
    lemma_gcd_pos(ka, kb);
    lemma_gcd_divides(ka, kb);
    let ma = choose|m: nat| ka == #[trigger] (h * m);
    let mb = choose|m: nat| kb == #[trigger] (h * m);
    assert(a == (g * h) * ma) by (nonlinear_arith)
        requires
            a == g * ka,
            ka == h * ma,
    ;
    assert(b == (g * h) * mb) by (nonlinear_arith)
        requires
            b == g * kb,
            kb == h * mb,
    ;
    lemma_common_divisor_divides_gcd(a, b, g * h);
    let t = choose|k: nat| g == #[trigger] ((g * h) * k);
    assert(h == 1) by (nonlinear_arith)
        requires
            g == (g * h) * t,
            g > 0,
    ;
}

/// An exact nonnegative fraction.  Every value produced by this module's
/// operations is in lowest terms with a positive denominator.
#[derive(Debug, Eq, PartialEq, Copy, Clone, Structural)]
pub struct Rational {
    pub numerator: usize,
    pub denominator: usize,
}

impl Rational {
    /// The denominator is positive and no divisor beyond one is shared.
    pub open spec fn reduced(self) -> bool {
        self.denominator > 0 && gcd(self.numerator as nat, self.denominator as nat) == 1
    }

    /// Both fractions stand for the same number (cross multiplication).
    pub open spec fn same_value(self, other: Rational) -> bool {
        self.numerator * other.denominator == other.numerator * self.denominator
    }

    /// The fraction reduced by the greatest common divisor of its parts,
    /// as with `new`; callers must rule out the indeterminate `0 / 0`.
    pub fn simplify(self) -> (r: Rational)
        requires
            self.numerator != 0 || self.denominator != 0,
        ensures
            r.numerator as nat == reduced_num(self.numerator as nat, self.denominator as nat),
            r.denominator as nat == reduced_den(self.numerator as nat, self.denominator as nat),
            self.denominator > 0 ==> r.reduced(),
            self.denominator > 0 ==> r.same_value(self),
            self.denominator > 0 ==> (r.numerator == 0 <==> self.numerator == 0),
    {
        let a = self.numerator;
        let b = self.denominator;
        let g = self.gcd();
        proof {
            lemma_gcd_pos(a as nat, b as nat);
            lemma_gcd_divides(a as nat, b as nat);
            let gn = gcd(a as nat, b as nat);
            let ka = choose|k: nat| a as nat == #[trigger] (gn * k);
            let kb = choose|k: nat| b as nat == #[trigger] (gn * k);
            lemma_div_multiples_vanish(ka as int, gn as int);
            lemma_div_multiples_vanish(kb as int, gn as int);
            assert(a as nat / gn == ka && b as nat / gn == kb);
            if b > 0 {
                lemma_reduced_by_gcd(a as nat, b as nat);
                assert(kb > 0) by (nonlinear_arith)
                    requires
                        b as nat == gn * kb,
                        b > 0,
                ;
                assert(ka * (b as nat) == (a as nat) * kb) by (nonlinear_arith)
                    requires
                        a as nat == gn * ka,
                        b as nat == gn * kb,
                ;
                assert(ka == 0 <==> a == 0) by (nonlinear_arith)
                    requires
                        a as nat == gn * ka,
                        gn > 0,
                ;
            }
        }
        Rational { numerator: a / g, denominator: b / g }
    }

    /// The greatest common divisor of numerator and denominator, by
    /// Euclid's algorithm.
    pub fn gcd(&self) -> (g: usize)
        ensures
            g as nat == gcd(self.numerator as nat, self.denominator as nat),
    {
        let mut x = self.numerator;
        let mut y = self.denominator;
        while y != 0
            invariant
                gcd(x as nat, y as nat) == gcd(self.numerator as nat, self.denominator as nat),
            decreases y,
        {
            let t = y;
            y = x % y;
            x = t;
        }
        x
    }

    /// A new fraction with the given parts, reduced to lowest terms.
    /// A zero numerator reduces to `0 / 1`.
    pub fn new(numerator: usize, denominator: usize) -> (r: Rational)
        requires
            denominator != 0,
        ensures
            r.numerator as nat == reduced_num(numerator as nat, denominator as nat),
            r.denominator as nat == reduced_den(numerator as nat, denominator as nat),
            r.reduced(),
            r.numerator * denominator == numerator * r.denominator,
            r.numerator == 0 <==> numerator == 0,
    {
        let r = Rational { numerator, denominator };
        r.simplify()
    }

    /// The reduced product of two fractions.
    pub fn multiply(self, rhs: Rational) -> (r: Rational)
        requires
            self.denominator > 0,
            rhs.denominator > 0,
            self.numerator * rhs.numerator <= usize::MAX,
            self.denominator * rhs.denominator <= usize::MAX,
        ensures
            r.numerator as nat == reduced_num(
                (self.numerator * rhs.numerator) as nat,
                (self.denominator * rhs.denominator) as nat,
            ),
            r.denominator as nat == reduced_den(
                (self.numerator * rhs.numerator) as nat,
                (self.denominator * rhs.denominator) as nat,
            ),
            r.reduced(),
            r.numerator * (self.denominator * rhs.denominator) == (self.numerator * rhs.numerator)
                * r.denominator,
            r.numerator == 0 <==> (self.numerator == 0 || rhs.numerator == 0),
    {
        let numerator = self.numerator * rhs.numerator;
        let denominator = self.denominator * rhs.denominator;
        proof {
            assert(denominator > 0 && (numerator == 0 <==> (self.numerator == 0 || rhs.numerator
                == 0))) by (nonlinear_arith)
                requires
                    numerator == self.numerator * rhs.numerator,
                    denominator == self.denominator * rhs.denominator,
                    self.denominator > 0,
                    rhs.denominator > 0,
            ;
        }
        Rational::new(numerator, denominator)
    }

    /// The reduced quotient of two fractions; the divisor must not be the
    /// zero value.
    pub fn divide(self, rhs: Rational) -> (r: Rational)
        requires
            self.denominator > 0,
            rhs.denominator > 0,
            rhs.numerator != 0,
            self.numerator * rhs.denominator <= usize::MAX,
            self.denominator * rhs.numerator <= usize::MAX,
        ensures
            r.numerator as nat == reduced_num(
                (self.numerator * rhs.denominator) as nat,
                (self.denominator * rhs.numerator) as nat,
            ),
            r.denominator as nat == reduced_den(
                (self.numerator * rhs.denominator) as nat,
                (self.denominator * rhs.numerator) as nat,
            ),
            r.reduced(),
            r.numerator * (self.denominator * rhs.numerator) == (self.numerator * rhs.denominator)
                * r.denominator,
            r.numerator == 0 <==> self.numerator == 0,
    {
        let numerator = self.numerator * rhs.denominator;
        let denominator = self.denominator * rhs.numerator;
        proof {
            assert(denominator > 0 && (numerator == 0 <==> self.numerator == 0))
                by (nonlinear_arith)
                requires
                    numerator == self.numerator * rhs.denominator,
                    denominator == self.denominator * rhs.numerator,
                    self.denominator > 0,
                    rhs.denominator > 0,
                    rhs.numerator != 0,
            ;
        }
        Rational::new(numerator, denominator)
    }

    /// The reduced product, or `None` where a raw part would exceed the
    /// machine word.
    pub fn checked_multiply(self, rhs: Rational) -> (r: Option<Rational>)
        requires
            self.denominator > 0,
            rhs.denominator > 0,
        ensures
            match r {
                Some(x) => self.numerator * rhs.numerator <= usize::MAX && self.denominator
                    * rhs.denominator <= usize::MAX && x == self.multiply_spec(rhs),
                None => self.numerator * rhs.numerator > usize::MAX || self.denominator
                    * rhs.denominator > usize::MAX,
            },
    {
        match (
            self.numerator.checked_mul(rhs.numerator),
            self.denominator.checked_mul(rhs.denominator),
        ) {
            (Some(_), Some(_)) => Some(self.multiply(rhs)),
            _ => None,
        }
    }

    /// The reduced quotient, or `None` where a raw part would exceed the
    /// machine word.
    pub fn checked_divide(self, rhs: Rational) -> (r: Option<Rational>)
        requires
            self.denominator > 0,
            rhs.denominator > 0,
            rhs.numerator != 0,
        ensures
            match r {
                Some(x) => self.numerator * rhs.denominator <= usize::MAX && self.denominator
                    * rhs.numerator <= usize::MAX && x == self.divide_spec(rhs),
                None => self.numerator * rhs.denominator > usize::MAX || self.denominator
                    * rhs.numerator > usize::MAX,
            },
    {
        match (
            self.numerator.checked_mul(rhs.denominator),
            self.denominator.checked_mul(rhs.numerator),
        ) {
            (Some(_), Some(_)) => Some(self.divide(rhs)),
            _ => None,
        }
    }

    /// The value `multiply` returns, written out over the parts.
    pub open spec fn multiply_spec(self, rhs: Rational) -> Rational {
        Rational {
            numerator: reduced_num(
                (self.numerator * rhs.numerator) as nat,
                (self.denominator * rhs.denominator) as nat,
            ) as usize,
            denominator: reduced_den(
                (self.numerator * rhs.numerator) as nat,
                (self.denominator * rhs.denominator) as nat,
            ) as usize,
        }
    }

    /// The value `divide` returns, written out over the parts.
    pub open spec fn divide_spec(self, rhs: Rational) -> Rational {
        Rational {
            numerator: reduced_num(
                (self.numerator * rhs.denominator) as nat,
                (self.denominator * rhs.numerator) as nat,
            ) as usize,
            denominator: reduced_den(
                (self.numerator * rhs.denominator) as nat,
                (self.denominator * rhs.numerator) as nat,
            ) as usize,
        }
    }
}

/// Round trip of exact division: for fractions `q` and `r` built as
/// `q = a / b` and `r = q * b` under the contracts of `divide` and
/// `multiply`, `r` is numerically equal to `a`.
/// Reducing a fraction keeps its value: the reduced parts cross multiply
/// against the raw parts, the reduced denominator stays positive, and
/// neither part grows.
pub proof fn lemma_reduced_value(n: nat, d: nat)
    requires
        d > 0,
    ensures
        reduced_den(n, d) > 0,
        reduced_num(n, d) * d == n * reduced_den(n, d),
        reduced_num(n, d) <= n,
        reduced_den(n, d) <= d,
{
    lemma_gcd_pos(n, d);
    lemma_gcd_divides(n, d);
    let g = gcd(n, d);
    let kn = choose|k: nat| n == #[trigger] (g * k);
    let kd = choose|k: nat| d == #[trigger] (g * k);
    lemma_div_multiples_vanish(kn as int, g as int);
    lemma_div_multiples_vanish(kd as int, g as int);
    assert(n / g == kn && d / g == kd);
    assert(kd > 0 && kn * d == n * kd && kn <= n && kd <= d) by (nonlinear_arith)
        requires
            n == g * kn,
            d == g * kd,
            d > 0,
            g >= 1,
    ;
}

/// Round trip of exact division: dividing `a` by a nonzero `b` and
/// multiplying the quotient by `b` again gives a fraction numerically
/// equal to `a`.  The bounds keep every raw product within a machine
/// word, as `divide` and `multiply` themselves ask.
pub proof fn lemma_divide_multiply_roundtrip(a: Rational, b: Rational)
    requires
        a.denominator > 0,
        b.denominator > 0,
        b.numerator != 0,
        a.numerator * b.denominator <= usize::MAX,
        a.denominator * b.numerator <= usize::MAX,
        a.divide_spec(b).numerator * b.numerator <= usize::MAX,
        a.divide_spec(b).denominator * b.denominator <= usize::MAX,
    ensures
        a.divide_spec(b).multiply_spec(b).same_value(a),
{
    let q = a.divide_spec(b);
    let r = q.multiply_spec(b);
    assert(a.denominator * b.numerator > 0) by (nonlinear_arith)
        requires
            a.denominator > 0,
            b.numerator != 0,
    ;
    lemma_reduced_value((a.numerator * b.denominator) as nat, (a.denominator * b.numerator) as nat);
    assert(q.numerator * (a.denominator * b.numerator) == (a.numerator * b.denominator)
        * q.denominator);
    assert(q.denominator > 0);
    assert(q.denominator * b.denominator > 0) by (nonlinear_arith)
        requires
            q.denominator > 0,
            b.denominator > 0,
    ;
    lemma_reduced_value((q.numerator * b.numerator) as nat, (q.denominator * b.denominator) as nat);
    assert(r.numerator * (q.denominator * b.denominator) == (q.numerator * b.numerator)
        * r.denominator);
    assert(r.denominator > 0);
    lemma_roundtrip_algebra(a, b, q, r);
}

/// The algebraic core of the round trip, over the cross-multiplication
/// facts alone.
proof fn lemma_roundtrip_algebra(a: Rational, b: Rational, q: Rational, r: Rational)
    requires
        a.denominator > 0,
        b.denominator > 0,
        b.numerator != 0,
        q.denominator > 0,
        r.denominator > 0,
        q.numerator * (a.denominator * b.numerator) == (a.numerator * b.denominator)
            * q.denominator,
        r.numerator * (q.denominator * b.denominator) == (q.numerator * b.numerator)
            * r.denominator,
    ensures
        r.same_value(a),
{
    let c = (q.denominator * b.denominator) as int;
    assert(c > 0) by (nonlinear_arith)
        requires
            c == q.denominator * b.denominator,
            q.denominator > 0,
            b.denominator > 0,
    ;
    assert((r.numerator * a.denominator) * c == (a.numerator * r.denominator) * c)
        by (nonlinear_arith)
        requires
            q.numerator * (a.denominator * b.numerator) == (a.numerator * b.denominator)
                * q.denominator,
            r.numerator * (q.denominator * b.denominator) == (q.numerator * b.numerator)
                * r.denominator,
            c == q.denominator * b.denominator,
    ;
    assert(r.numerator * a.denominator == a.numerator * r.denominator) by (nonlinear_arith)
        requires
            (r.numerator * a.denominator) * c == (a.numerator * r.denominator) * c,
            c > 0,
    ;
}

} // verus!
