//! The unit registry and its definition-table parser.
//!
//! A definition line has the form `name [coefficient] [ref[^n] ...] [# comment]`,
//! fields whitespace separated.  The coefficient is an integer, a decimal
//! (kept as an approximate factor), or an exact `p|q` fraction.  A body of
//! a single `!` declares a fundamental unit.  Each reference is looked up
//! among the units defined so far; a reference with `^n` counts `n` times.
//! Lines resolve in order into a name-to-expression mapping; a repeated
//! name overwrites the earlier entry, and an unknown reference is dropped
//! with a diagnostic rather than stopping the build.

use crate::rational::Rational;
use crate::units::{
    coef_div, coef_div_fits, coef_is_unit, coef_mul, coef_mul_fits, coef_of, coef_one, coef_wf,
    dens_of, expr_wf, names, nums_of, spec_divide, Basic, Coef, CoefV, UnitExpr,
    UnitExprV,
};
use vstd::prelude::*;

verus! {

/// The whitespace characters the line grammar recognizes.
pub open spec fn is_space(c: char) -> bool {
    c == ' ' || c == '\t' || c == '\n' || c == '\r' || c == '\u{b}' || c == '\u{c}'
}

/// Decimal digit characters.
pub open spec fn is_digit(c: char) -> bool {
    48 <= c as int && c as int <= 57
}

/// First position at or after `from` that does not hold a space, or the
/// end.
pub open spec fn skip_sp(s: Seq<char>, from: int) -> int
    recommends
        0 <= from <= s.len(),
    decreases s.len() - from,
        when 0 <= from <= s.len()
{
    if from >= s.len() {
        from
    } else if is_space(s[from]) {
        skip_sp(s, from + 1)
    } else {
        from
    }
}

/// First position at or after `from` that holds a space, or the end.
pub open spec fn skip_nsp(s: Seq<char>, from: int) -> int
    recommends
        0 <= from <= s.len(),
    decreases s.len() - from,
        when 0 <= from <= s.len()
{
    if from >= s.len() {
        from
    } else if !is_space(s[from]) {
        skip_nsp(s, from + 1)
    } else {
        from
    }
}

/// First position at or after `from` that does not hold a digit, or the
/// end.
pub open spec fn skip_dig(s: Seq<char>, from: int) -> int
    recommends
        0 <= from <= s.len(),
    decreases s.len() - from,
        when 0 <= from <= s.len()
{
    if from >= s.len() {
        from
    } else if is_digit(s[from]) {
        skip_dig(s, from + 1)
    } else {
        from
    }
}

/// First position at or after `from` that holds `#`, or the end.
pub open spec fn skip_nhash(s: Seq<char>, from: int) -> int
    recommends
        0 <= from <= s.len(),
    decreases s.len() - from,
        when 0 <= from <= s.len()
{
    if from >= s.len() {
        from
    } else if s[from] != '#' {
        skip_nhash(s, from + 1)
    } else {
        from
    }
}

/// First position at or after `from` that holds `^`, or the end.
pub open spec fn skip_ncaret(s: Seq<char>, from: int) -> int
    recommends
        0 <= from <= s.len(),
    decreases s.len() - from,
        when 0 <= from <= s.len()
{
    if from >= s.len() {
        from
    } else if s[from] != '^' {
        skip_ncaret(s, from + 1)
    } else {
        from
    }
}

/// First position at or after `from` that holds a plain space, or the end.
pub open spec fn skip_nsp1(s: Seq<char>, from: int) -> int
    recommends
        0 <= from <= s.len(),
    decreases s.len() - from,
        when 0 <= from <= s.len()
{
    if from >= s.len() {
        from
    } else if s[from] != ' ' {
        skip_nsp1(s, from + 1)
    } else {
        from
    }
}

/// The numeric value of a digit character.
pub open spec fn digit_val(c: char) -> nat {
    (c as int - 48) as nat
}

/// All characters of `s` are digits.
pub open spec fn all_digits(s: Seq<char>) -> bool {
    forall|i: int| 0 <= i < s.len() ==> is_digit(#[trigger] s[i])
}

/// The number the digit string `s` denotes, most significant digit first.
pub open spec fn digits_val(s: Seq<char>) -> nat
    decreases s.len(),
{
    if s.len() == 0 {
        0
    } else {
        digits_val(s.drop_last()) * 10 + digit_val(s.last())
    }
}

/// Ten to the power `n`.
pub open spec fn pow10(n: nat) -> nat
    decreases n,
{
    if n == 0 {
        1
    } else {
        10 * pow10((n - 1) as nat)
    }
}

/// How a whole number is read from text: an optional leading plus sign,
/// then at least one digit, within the machine word; anything else reads
/// as nothing.
pub open spec fn parse_nat(s: Seq<char>) -> Option<nat> {
    let t = if s.len() > 0 && s[0] == '+' {
        s.drop_first()
    } else {
        s
    };
    if t.len() > 0 && all_digits(t) && digits_val(t) <= usize::MAX {
        Some(digits_val(t))
    } else {
        None
    }
}

/// A definition line split into its fields: the unit name, the digits of
/// any coefficient (integer part, fraction part, denominator), and the
/// trimmed definition text.
pub struct LineShape {
    pub name: Seq<char>,
    pub num_int: Option<Seq<char>>,
    pub num_frac: Option<Seq<char>>,
    pub den: Option<Seq<char>>,
    pub def: Seq<char>,
}

/// End of the text once trailing spaces are dropped.
pub open spec fn trim_end(s: Seq<char>) -> int
    decreases s.len(),
{
    if s.len() > 0 && is_space(s.last()) {
        trim_end(s.drop_last())
    } else {
        s.len() as int
    }
}

/// The text with leading and trailing spaces dropped.
pub open spec fn trim(s: Seq<char>) -> Seq<char> {
    let e = trim_end(s);
    let b = skip_sp(s, 0);
    if b >= e {
        Seq::empty()
    } else {
        s.subrange(b, e)
    }
}

/// How a line splits into fields.  A line with no name, or whose name runs
/// to the end with no whitespace after it, has no shape and is ignored.  A
/// coefficient is recognized only when its digits are followed by
/// whitespace; otherwise those characters belong to the definition text,
/// which runs to the first `#`.
pub open spec fn line_shape(s: Seq<char>) -> Option<LineShape> {
    let i0 = skip_sp(s, 0);
    if i0 >= s.len() {
        None
    } else {
        let k = skip_nsp(s, i0);
        if k >= s.len() {
            None
        } else {
            let name = s.subrange(i0, k);
            let m = skip_sp(s, k);
            let e1 = skip_dig(s, m);
            let f = if e1 > m && e1 < s.len() && s[e1] == '.' && skip_dig(s, e1 + 1) > e1 + 1 {
                skip_dig(s, e1 + 1)
            } else {
                e1
            };
            let g = if e1 > m && f < s.len() && s[f] == '|' && skip_dig(s, f + 1) > f + 1 {
                skip_dig(s, f + 1)
            } else {
                f
            };
            if e1 > m && g < s.len() && is_space(s[g]) {
                let ds = skip_sp(s, g);
                Some(
                    LineShape {
                        name,
                        num_int: Some(s.subrange(m, e1)),
                        num_frac: if f != e1 {
                            Some(s.subrange(e1 + 1, f))
                        } else {
                            None
                        },
                        den: if g != f {
                            Some(s.subrange(f + 1, g))
                        } else {
                            None
                        },
                        def: trim(s.subrange(ds, skip_nhash(s, ds))),
                    },
                )
            } else {
                Some(
                    LineShape {
                        name,
                        num_int: None,
                        num_frac: None,
                        den: None,
                        def: trim(s.subrange(m, skip_nhash(s, m))),
                    },
                )
            }
        }
    }
}

/// A failure that stops the build of a registry.
#[derive(Debug, Eq, PartialEq, Copy, Clone, Structural)]
pub enum DefError {
    /// A `p|q` coefficient with a zero `q`.
    ZeroDenominator,
    /// A `^n` whose `n` is not a whole number.
    MalformedExponent,
    /// A numeric literal that exceeds the machine word.
    NumberTooLarge,
    /// An accumulated coefficient that exceeds the machine word.
    CoefficientOverflow,
}

/// The coefficient a line's shape denotes: the identity when none is
/// written, an exact reduced fraction for `p` or `p|q`, and an approximate
/// reduced fraction for a decimal (its written denominator, if any, is
/// ignored, as the decimal already failed to read as a whole number).
pub open spec fn line_coef(sh: LineShape) -> Result<CoefV, DefError> {
    coef_of_parts(sh.num_int, sh.num_frac, sh.den)
}

/// The coefficient denoted by the digit fields alone.
pub open spec fn coef_of_parts(
    num_int: Option<Seq<char>>,
    num_frac: Option<Seq<char>>,
    den: Option<Seq<char>>,
) -> Result<CoefV, DefError> {
    match num_int {
        None => Ok(coef_one()),
        Some(ip) => match num_frac {
            Some(fp) => {
                let dv = digits_val(ip + fp);
                let p = pow10(fp.len());
                if dv > usize::MAX || p > usize::MAX {
                    Err(DefError::NumberTooLarge)
                } else {
                    Ok(
                        CoefV {
                            exact: false,
                            num: crate::rational::reduced_num(dv, p),
                            den: crate::rational::reduced_den(dv, p),
                        },
                    )
                }
            },
            None => {
                let dv = digits_val(ip);
                if dv > usize::MAX {
                    Err(DefError::NumberTooLarge)
                } else {
                    match den {
                        None => Ok(
                            CoefV {
                                exact: true,
                                num: crate::rational::reduced_num(dv, 1),
                                den: crate::rational::reduced_den(dv, 1),
                            },
                        ),
                        Some(dt) => {
                            let dd = digits_val(dt);
                            if dd > usize::MAX {
                                Err(DefError::NumberTooLarge)
                            } else if dd == 0 {
                                Err(DefError::ZeroDenominator)
                            } else {
                                Ok(
                                    CoefV {
                                        exact: true,
                                        num: crate::rational::reduced_num(dv, dd),
                                        den: crate::rational::reduced_den(dv, dd),
                                    },
                                )
                            }
                        },
                    }
                }
            },
        },
    }
}

/// What one reference token names and how often: the text before the
/// first `^`, repeated by the number after it.  A token without `^` names
/// itself once.
pub open spec fn expand_token(tok: Seq<char>) -> Result<(Seq<char>, nat), DefError> {
    let c1 = skip_ncaret(tok, 0);
    if c1 >= tok.len() {
        Ok((tok, 1nat))
    } else {
        let c2 = skip_ncaret(tok, c1 + 1);
        match parse_nat(tok.subrange(c1 + 1, c2)) {
            Some(k) => Ok((tok.subrange(0, c1), k)),
            None => Err(DefError::MalformedExponent),
        }
    }
}

/// What one resolved reference contributes to a line: atoms for the
/// numerator, a coefficient factor, and a diagnostic where the name is
/// unknown.
pub struct Resolved {
    pub atoms: Seq<Seq<char>>,
    pub coef: CoefV,
    pub diags: Seq<Seq<char>>,
}

/// Resolution of one reference against the registry built so far.  A
/// fundamental unit contributes its atom; a quotient contributes only its
/// numerator atoms (its denominator is not carried through — a known gap
/// kept as it is); a scaled entry contributes its coefficient and the
/// atoms under it; an unknown name contributes nothing but a diagnostic.
pub open spec fn resolve_ref(m: Map<Seq<char>, UnitExprV>, tok: Seq<char>) -> Resolved {
    if m.contains_key(tok) {
        match m[tok] {
            UnitExprV::Basic(nm) => Resolved {
                atoms: seq![nm],
                coef: coef_one(),
                diags: Seq::empty(),
            },
            UnitExprV::Div(n, _) => Resolved { atoms: n, coef: coef_one(), diags: Seq::empty() },
            UnitExprV::Coef(c, inner) => match *inner {
                UnitExprV::Basic(nm) => Resolved { atoms: seq![nm], coef: c, diags: Seq::empty() },
                UnitExprV::Div(n, _) => Resolved { atoms: n, coef: c, diags: Seq::empty() },
                UnitExprV::Coef(_, _) => Resolved {
                    atoms: Seq::empty(),
                    coef: c,
                    diags: Seq::empty(),
                },
            },
        }
    } else {
        Resolved { atoms: Seq::empty(), coef: coef_one(), diags: seq![tok] }
    }
}

/// A line's accumulated numerator atoms, coefficient and diagnostics.
pub struct LineAcc {
    pub atoms: Seq<Seq<char>>,
    pub coef: CoefV,
    pub diags: Seq<Seq<char>>,
}

/// One reference applied `k` times to the accumulator; the build stops if
/// the coefficient leaves the machine word.
pub open spec fn apply_ref(
    m: Map<Seq<char>, UnitExprV>,
    acc: LineAcc,
    base: Seq<char>,
    k: nat,
) -> Result<LineAcc, DefError>
    decreases k,
{
    if k == 0 {
        Ok(acc)
    } else {
        let r = resolve_ref(m, base);
        if !coef_mul_fits(acc.coef, r.coef) {
            Err(DefError::CoefficientOverflow)
        } else {
            apply_ref(
                m,
                LineAcc {
                    atoms: acc.atoms + r.atoms,
                    coef: coef_mul(acc.coef, r.coef),
                    diags: acc.diags + r.diags,
                },
                base,
                (k - 1) as nat,
            )
        }
    }
}

/// All reference tokens folded over the accumulator in order.
pub open spec fn resolve_tokens(
    m: Map<Seq<char>, UnitExprV>,
    toks: Seq<Seq<char>>,
    acc: LineAcc,
) -> Result<LineAcc, DefError>
    decreases toks.len(),
{
    if toks.len() == 0 {
        Ok(acc)
    } else {
        match expand_token(toks[0]) {
            Err(e) => Err(e),
            Ok((base, k)) => match apply_ref(m, acc, base, k) {
                Err(e) => Err(e),
                Ok(acc2) => resolve_tokens(m, toks.drop_first(), acc2),
            },
        }
    }
}

/// The definition text split at single spaces; empty pieces count, and the
/// empty text holds one empty token.
pub open spec fn split_from(s: Seq<char>, pos: int) -> Seq<Seq<char>>
    recommends
        0 <= pos <= s.len(),
    decreases s.len() - pos,
        when 0 <= pos <= s.len()
{
    let t0 = skip_nsp1(s, pos);
    let t = if t0 < pos {
        pos
    } else {
        t0
    };
    if t >= s.len() {
        seq![s.subrange(pos, s.len() as int)]
    } else {
        seq![s.subrange(pos, t)] + split_from(s, t + 1)
    }
}

/// The fresh accumulator a line starts with.
pub open spec fn empty_acc() -> LineAcc {
    LineAcc { atoms: Seq::empty(), coef: coef_one(), diags: Seq::empty() }
}

/// The expression a coefficient and numerator atoms build: the bare body
/// unless the coefficient is more than the identity.
pub open spec fn wrap_expr(c: CoefV, body: UnitExprV) -> UnitExprV {
    if coef_is_unit(c) {
        body
    } else {
        UnitExprV::Coef(c, Box::new(body))
    }
}

/// What one line does to the registry built so far: nothing for a line
/// with no shape; otherwise a new entry under the line's name — the
/// fundamental marker `!` makes an atom, any other body resolves its
/// references into numerator atoms — together with the diagnostics for
/// unknown references.
pub open spec fn line_entry(m: Map<Seq<char>, UnitExprV>, s: Seq<char>) -> Result<
    Option<(Seq<char>, UnitExprV, Seq<Seq<char>>)>,
    DefError,
> {
    match line_shape(s) {
        None => Ok(None),
        Some(sh) => {
            if sh.def == seq!['!'] {
                match line_coef(sh) {
                    Err(e) => Err(e),
                    Ok(c0) => {
                        if !coef_mul_fits(coef_one(), c0) {
                            Err(DefError::CoefficientOverflow)
                        } else {
                            let c = coef_mul(coef_one(), c0);
                            Ok(
                                Some(
                                    (
                                        sh.name,
                                        wrap_expr(c, UnitExprV::Basic(sh.name)),
                                        Seq::empty(),
                                    ),
                                ),
                            )
                        }
                    },
                }
            } else {
                match resolve_tokens(m, split_from(sh.def, 0), empty_acc()) {
                    Err(e) => Err(e),
                    Ok(acc) => match line_coef(sh) {
                        Err(e) => Err(e),
                        Ok(c0) => {
                            if !coef_mul_fits(acc.coef, c0) {
                                Err(DefError::CoefficientOverflow)
                            } else {
                                let c = coef_mul(acc.coef, c0);
                                Ok(
                                    Some(
                                        (
                                            sh.name,
                                            wrap_expr(
                                                c,
                                                UnitExprV::Div(acc.atoms, Seq::empty()),
                                            ),
                                            acc.diags,
                                        ),
                                    ),
                                )
                            }
                        },
                    },
                }
            }
        },
    }
}

/// The registry and diagnostics after the first `k` lines.
pub open spec fn build_upto(lines: Seq<Seq<char>>, k: int) -> Result<
    (Map<Seq<char>, UnitExprV>, Seq<Seq<char>>),
    DefError,
>
    decreases k,
{
    if k <= 0 {
        Ok((Map::empty(), Seq::empty()))
    } else {
        match build_upto(lines, k - 1) {
            Err(e) => Err(e),
            Ok((m, dg)) => match line_entry(m, lines[k - 1]) {
                Err(e) => Err(e),
                Ok(None) => Ok((m, dg)),
                Ok(Some((nm, ev, d2))) => Ok((m.insert(nm, ev), dg + d2)),
            },
        }
    }
}

/// The registry and diagnostics a whole table builds.
pub open spec fn spec_build(lines: Seq<Seq<char>>) -> Result<
    (Map<Seq<char>, UnitExprV>, Seq<Seq<char>>),
    DefError,
> {
    build_upto(lines, lines.len() as int)
}

/// The name-to-expression mapping that a sequence of inserted entries
/// leaves behind; a later entry under the same name wins.
pub open spec fn entries_map(s: Seq<(String, UnitExpr)>) -> Map<Seq<char>, UnitExprV>
    decreases s.len(),
{
    if s.len() == 0 {
        Map::empty()
    } else {
        entries_map(s.drop_last()).insert(s.last().0@, s.last().1@)
    }
}

/// The immutable mapping from unit names to their resolved expressions.
#[derive(Debug)]
pub struct UnitRegistry {
    entries: Vec<(String, UnitExpr)>,
}

impl View for UnitRegistry {
    type V = Map<Seq<char>, UnitExprV>;

    closed spec fn view(&self) -> Map<Seq<char>, UnitExprV> {
        entries_map(self.entries@)
    }
}

/// Entries whose keys avoid `key` leave the mapping at `key` alone.
proof fn lemma_entries_map_frame(s: Seq<(String, UnitExpr)>, key: Seq<char>, i: int)
    requires
        0 <= i <= s.len(),
        forall|j: int| i <= j < s.len() ==> #[trigger] s[j].0@ != key,
    ensures
        entries_map(s).contains_key(key) == entries_map(s.take(i)).contains_key(key),
        entries_map(s).contains_key(key) ==> entries_map(s)[key] == entries_map(s.take(i))[key],
    decreases s.len() - i,
{
    if i == s.len() {
        assert(s.take(i) =~= s);
    } else {
        assert(s[s.len() - 1].0@ != key);
        assert(s.drop_last() =~= s.take(s.len() - 1));
        lemma_entries_map_frame(s.take(s.len() - 1), key, i);
        assert(s.take(s.len() - 1).take(i) =~= s.take(i));
    }
}

impl UnitRegistry {
    /// All stored expressions are well formed.
    pub open spec fn wf(self) -> bool {
        forall|k: Seq<char>| self@.contains_key(k) ==> expr_wf(#[trigger] self@[k])
    }

    /// An empty registry.
    pub fn new() -> (r: UnitRegistry)
        ensures
            r@ == Map::<Seq<char>, UnitExprV>::empty(),
            r.wf(),
    {
        UnitRegistry { entries: Vec::new() }
    }

    /// Binds `name` to `e`, replacing any earlier binding.
    pub fn insert(&mut self, name: String, e: UnitExpr)
        requires
            expr_wf(e@),
        ensures
            final(self)@ == old(self)@.insert(name@, e@),
            old(self).wf() ==> final(self).wf(),
    {
        let ghost pre = self.entries@;
        let ghost nv = name@;
        let ghost ev = e@;
        self.entries.push((name, e));
        proof {
            assert(self.entries@.drop_last() =~= pre);
            assert(self.entries@.last().0@ == nv && self.entries@.last().1@ == ev);
            assert(entries_map(self.entries@) =~= entries_map(pre).insert(nv, ev));
        }
    }

    /// The expression bound to `name`, where one is.
    pub fn get(&self, name: &String) -> (r: Option<&UnitExpr>)
        ensures
            match r {
                Some(e) => self@.contains_key(name@) && e@ == self@[name@],
                None => !self@.contains_key(name@),
            },
    {
        let ghost s = self.entries@;
        let mut i: usize = self.entries.len();
        while i > 0
            invariant
                i <= s.len(),
                s == self.entries@,
                forall|j: int| i <= j < s.len() ==> #[trigger] s[j].0@ != name@,
            decreases i,
        {
            i -= 1;
            if self.entries[i].0 == *name {
                proof {
                    lemma_entries_map_frame(s, name@, i + 1);
                    assert(s.take(i + 1).drop_last() =~= s.take(i as int));
                    assert(s.take(i + 1).last() == s[i as int]);
                    assert(entries_map(s.take(i + 1)) == entries_map(s.take(i as int)).insert(
                        s[i as int].0@,
                        s[i as int].1@,
                    ));
                }
                return Some(&self.entries[i].1);
            }
        }
        proof {
            lemma_entries_map_frame(s, name@, 0);
            assert(s.take(0) =~= Seq::<(String, UnitExpr)>::empty());
        }
        None
    }
}

/// Why a conversion request cannot be answered.
#[derive(Debug, Clone)]
pub enum ConvertError {
    /// The named unit is not in the registry.
    UnknownUnit(String),
    /// The unit to convert from carries a zero scale factor.
    ZeroCoefficient,
    /// The combined scale factor leaves the machine word.
    CoefficientOverflow,
}

/// The coefficient factored out of an expression, without taking it apart.
fn coef_of_expr(e: &UnitExpr) -> (c: Coef)
    ensures
        c@ == coef_of(e@),
{
    match e {
        UnitExpr::Coef(c, _) => *c,
        _ => Coef::unit(),
    }
}

/// Answers "how many of unit `a` make one unit `b`": looks both names up
/// and divides `b`'s expression by `a`'s, returning the numeric
/// coefficient and any leftover symbolic dimension.  A leftover shows the
/// two units are not commensurate; it is reported, not rejected.
pub fn convert(reg: &UnitRegistry, a: &String, b: &String) -> (r: Result<
    (Coef, Option<UnitExpr>),
    ConvertError,
>)
    requires
        reg.wf(),
    ensures
        match r {
            Err(ConvertError::UnknownUnit(nm)) => (!reg@.contains_key(a@) && nm@ == a@) || (
            reg@.contains_key(a@) && !reg@.contains_key(b@) && nm@ == b@),
            Err(ConvertError::ZeroCoefficient) => reg@.contains_key(a@) && reg@.contains_key(b@)
                && coef_of(reg@[a@]).num == 0,
            Err(ConvertError::CoefficientOverflow) => reg@.contains_key(a@) && reg@.contains_key(
                b@,
            ) && coef_of(reg@[a@]).num != 0 && !coef_div_fits(
                coef_of(reg@[b@]),
                coef_of(reg@[a@]),
            ),
            Ok((c, rest)) => reg@.contains_key(a@) && reg@.contains_key(b@) && coef_of(
                reg@[a@],
            ).num != 0 && coef_div_fits(coef_of(reg@[b@]), coef_of(reg@[a@])) && {
                let res = spec_divide(reg@[b@], reg@[a@]);
                c@ == coef_of(res) && match rest {
                    None => nums_of(res).len() == 0 && dens_of(res).len() == 0,
                    Some(e) => e@ == UnitExprV::Div(nums_of(res), dens_of(res)) && (nums_of(
                        res,
                    ).len() > 0 || dens_of(res).len() > 0),
                }
            },
        },
{
    let ua = match reg.get(a) {
        Some(u) => u,
        None => {
            return Err(ConvertError::UnknownUnit(a.clone()));
        },
    };
    let ub = match reg.get(b) {
        Some(u) => u,
        None => {
            return Err(ConvertError::UnknownUnit(b.clone()));
        },
    };
    let ca = coef_of_expr(ua);
    let cb = coef_of_expr(ub);
    if ca.value().numerator == 0 {
        return Err(ConvertError::ZeroCoefficient);
    }
    match cb.checked_divide(ca) {
        None => Err(ConvertError::CoefficientOverflow),
        Some(_) => {
            let q = crate::units::clone_expr(ub).divide(crate::units::clone_expr(ua));
            let ghost res = spec_divide(reg@[b@], reg@[a@]);
            proof {
                crate::units::lemma_make_parts(
                    coef_div(coef_of(reg@[b@]), coef_of(reg@[a@])),
                    nums_of(reg@[b@]) + dens_of(reg@[a@]),
                    dens_of(reg@[b@]) + nums_of(reg@[a@]),
                );
            }
            let (c, bare) = q.factor_out_coef();
            match bare {
                UnitExpr::Div(n, d) => {
                    proof {
                        assert(names(n@) == nums_of(res) && names(d@) == dens_of(res));
                    }
                    if n.len() == 0 && d.len() == 0 {
                        Ok((c, None))
                    } else {
                        Ok((c, Some(UnitExpr::Div(n, d))))
                    }
                },
                _ => unreached(),
            }
        },
    }
}

/// The characters of `s`, one by one.
fn line_chars(s: &str) -> (v: Vec<char>)
    ensures
        v@ == s@,
{
    let n = s.unicode_len();
    let mut v: Vec<char> = Vec::new();
    let mut i: usize = 0;
    while i < n
        invariant
            i <= n,
            n == s@.len(),
            v@ == s@.take(i as int),
        decreases n - i,
    {
        v.push(s.get_char(i));
        proof {
            assert(v@ =~= s@.take(i as int + 1));
        }
        i += 1;
    }
    proof {
        assert(s@.take(n as int) =~= s@);
    }
    v
}

/// Whether `c` is whitespace to the line grammar.
fn is_space_c(c: char) -> (r: bool)
    ensures
        r == is_space(c),
{
    c == ' ' || c == '\t' || c == '\n' || c == '\r' || c == '\u{b}' || c == '\u{c}'
}

/// Whether `c` is a decimal digit.
fn is_digit_c(c: char) -> (r: bool)
    ensures
        r == is_digit(c),
{
    let u = c as u32;
    48 <= u && u <= 57
}

/// First position at or after `from` without a space.
fn skip_spaces_x(v: &Vec<char>, from: usize) -> (r: usize)
    requires
        from <= v@.len(),
    ensures
        r == skip_sp(v@, from as int),
        from <= r <= v@.len(),
    {
    let mut j = from;
    while j < v.len() && is_space_c(v[j])
        invariant
            from <= j <= v@.len(),
            skip_sp(v@, from as int) == skip_sp(v@, j as int),
        decreases v@.len() - j,
    {
        j += 1;
    }
    j
}

/// First position at or after `from` with a space.
fn skip_non_spaces_x(v: &Vec<char>, from: usize) -> (r: usize)
    requires
        from <= v@.len(),
    ensures
        r == skip_nsp(v@, from as int),
        from <= r <= v@.len(),
    {
    let mut j = from;
    while j < v.len() && !is_space_c(v[j])
        invariant
            from <= j <= v@.len(),
            skip_nsp(v@, from as int) == skip_nsp(v@, j as int),
        decreases v@.len() - j,
    {
        j += 1;
    }
    j
}

/// First position at or after `from` without a digit.
fn skip_digits_x(v: &Vec<char>, from: usize) -> (r: usize)
    requires
        from <= v@.len(),
    ensures
        r == skip_dig(v@, from as int),
        from <= r <= v@.len(),
        all_digits(v@.subrange(from as int, r as int)),
    {
    let mut j = from;
    while j < v.len() && is_digit_c(v[j])
        invariant
            from <= j <= v@.len(),
            skip_dig(v@, from as int) == skip_dig(v@, j as int),
            forall|t: int| from <= t < j ==> is_digit(#[trigger] v@[t]),
        decreases v@.len() - j,
    {
        j += 1;
    }
    proof {
        assert forall|t: int| 0 <= t < j - from implies is_digit(
            #[trigger] v@.subrange(from as int, j as int)[t],
        ) by {
            assert(v@.subrange(from as int, j as int)[t] == v@[from + t]);
        }
    }
    j
}

/// First position at or after `from` with a `#`.
fn skip_to_hash_x(v: &Vec<char>, from: usize) -> (r: usize)
    requires
        from <= v@.len(),
    ensures
        r == skip_nhash(v@, from as int),
        from <= r <= v@.len(),
    {
    let mut j = from;
    while j < v.len() && v[j] != '#'
        invariant
            from <= j <= v@.len(),
            skip_nhash(v@, from as int) == skip_nhash(v@, j as int),
        decreases v@.len() - j,
    {
        j += 1;
    }
    j
}

/// First position at or after `from` with a `^`.
fn skip_to_caret_x(v: &Vec<char>, from: usize) -> (r: usize)
    requires
        from <= v@.len(),
    ensures
        r == skip_ncaret(v@, from as int),
        from <= r <= v@.len(),
    {
    let mut j = from;
    while j < v.len() && v[j] != '^'
        invariant
            from <= j <= v@.len(),
            skip_ncaret(v@, from as int) == skip_ncaret(v@, j as int),
        decreases v@.len() - j,
    {
        j += 1;
    }
    j
}

/// First position at or after `from` with a plain space.
fn skip_to_space1_x(v: &Vec<char>, from: usize) -> (r: usize)
    requires
        from <= v@.len(),
    ensures
        r == skip_nsp1(v@, from as int),
        from <= r <= v@.len(),
    {
    let mut j = from;
    while j < v.len() && v[j] != ' '
        invariant
            from <= j <= v@.len(),
            skip_nsp1(v@, from as int) == skip_nsp1(v@, j as int),
        decreases v@.len() - j,
    {
        j += 1;
    }
    j
}

/// Splitting a digit string splits its value by the place value.
pub proof fn lemma_digits_val_concat(a: Seq<char>, b: Seq<char>)
    ensures
        digits_val(a + b) == digits_val(a) * pow10(b.len()) + digits_val(b),
    decreases b.len(),
{
    if b.len() == 0 {
        assert(a + b =~= a);
        assert(pow10(b.len()) == 1);
        assert(digits_val(b) == 0);
        assert(digits_val(a) * 1 == digits_val(a)) by (nonlinear_arith);
    } else {
        lemma_digits_val_concat(a, b.drop_last());
        assert((a + b).drop_last() =~= a + b.drop_last());
        assert((a + b).last() == b.last());
        let p = pow10((b.len() - 1) as nat);
        let dva = digits_val(a);
        let dvb1 = digits_val(b.drop_last());
        let z = digit_val(b.last());
        assert(digits_val(a + b) == digits_val(a + b.drop_last()) * 10 + z);
        assert(digits_val(b) == dvb1 * 10 + z);
        assert(pow10(b.len()) == 10 * p);
        assert((dva * p + dvb1) * 10 + z == dva * (10 * p) + (dvb1 * 10 + z))
            by (nonlinear_arith);
        assert(digits_val(a + b.drop_last()) == dva * p + dvb1);
        assert(digits_val(a + b) == (dva * p + dvb1) * 10 + z);
        assert(digits_val(a + b) == dva * (10 * p) + (dvb1 * 10 + z));
        assert(dva * (10 * p) == dva * pow10(b.len()));
        assert(digits_val(a + b) == dva * pow10(b.len()) + digits_val(b));
    }
}

/// Place values never shrink.
pub proof fn lemma_pow10_monotone(a: nat, b: nat)
    requires
        a <= b,
    ensures
        1 <= pow10(a) <= pow10(b),
    decreases b,
{
    if b > 0 {
        if a == b {
            lemma_pow10_monotone((a - 1) as nat, (b - 1) as nat);
        } else {
            lemma_pow10_monotone(a, (b - 1) as nat);
        }
        assert(pow10(b) == 10 * pow10((b - 1) as nat));
    }
}

/// A digit string is worth at least any of its prefixes.
pub proof fn lemma_digits_val_prefix(s: Seq<char>, k: int)
    requires
        0 <= k <= s.len(),
    ensures
        digits_val(s) >= digits_val(s.take(k)),
{
    assert(s =~= s.take(k) + s.skip(k));
    lemma_digits_val_concat(s.take(k), s.skip(k));
    lemma_pow10_monotone(0, s.skip(k).len() as nat);
    assert(digits_val(s.take(k)) * pow10(s.skip(k).len() as nat) >= digits_val(s.take(k)))
        by (nonlinear_arith)
        requires
            pow10(s.skip(k).len() as nat) >= 1,
    ;
}

/// The value of the digits in `[from, to)`, or `None` past the machine
/// word.
fn parse_digits(v: &Vec<char>, from: usize, to: usize) -> (r: Option<usize>)
    requires
        from <= to <= v@.len(),
        all_digits(v@.subrange(from as int, to as int)),
    ensures
        match r {
            Some(x) => x == digits_val(v@.subrange(from as int, to as int)),
            None => digits_val(v@.subrange(from as int, to as int)) > usize::MAX,
        },
{
    let ghost sub = v@.subrange(from as int, to as int);
    let mut acc: usize = 0;
    let mut j = from;
    while j < to
        invariant
            from <= j <= to <= v@.len(),
            sub == v@.subrange(from as int, to as int),
            all_digits(sub),
            acc == digits_val(sub.take(j - from)),
        decreases to - j,
    {
        let c = v[j];
        proof {
            assert(sub[j - from] == v@[j as int]);
            assert(is_digit(c));
        }
        let d = (c as u32 - 48) as usize;
        let step = match acc.checked_mul(10) {
            Some(t) => t.checked_add(d),
            None => None,
        };
        match step {
            Some(t) => {
                proof {
                    assert(sub.take(j - from + 1).drop_last() =~= sub.take(j - from));
                    assert(sub.take(j - from + 1).last() == sub[j - from]);
                }
                acc = t;
            },
            None => {
                proof {
                    assert(sub.take(j - from + 1).drop_last() =~= sub.take(j - from));
                    assert(sub.take(j - from + 1).last() == sub[j - from]);
                    assert(digits_val(sub.take(j - from + 1)) > usize::MAX);
                    lemma_digits_val_prefix(sub, j - from + 1);
                    assert(sub.take(sub.len() as int) =~= sub);
                }
                return None;
            },
        }
        j += 1;
    }
    proof {
        assert(sub.take(sub.len() as int) =~= sub);
    }
    Some(acc)
}

/// A whole number read as `usize::from_str` reads it: an optional plus
/// sign, then digits, within the machine word.
fn parse_number(v: &Vec<char>, from: usize, to: usize) -> (r: Option<usize>)
    requires
        from <= to <= v@.len(),
    ensures
        match r {
            Some(x) => parse_nat(v@.subrange(from as int, to as int)) == Some(x as nat),
            None => parse_nat(v@.subrange(from as int, to as int)) is None,
        },
{
    let ghost sub = v@.subrange(from as int, to as int);
    let start = if from < to && v[from] == '+' {
        from + 1
    } else {
        from
    };
    let ghost t = if sub.len() > 0 && sub[0] == '+' {
        sub.drop_first()
    } else {
        sub
    };
    proof {
        assert(t =~= v@.subrange(start as int, to as int));
    }
    if start == to {
        return None;
    }
    let mut j = start;
    while j < to
        invariant
            from <= start <= j <= to <= v@.len(),
            t == v@.subrange(start as int, to as int),
            sub == v@.subrange(from as int, to as int),
            t == (if sub.len() > 0 && sub[0] == '+' {
                sub.drop_first()
            } else {
                sub
            }),
            forall|k: int| start <= k < j ==> is_digit(#[trigger] v@[k]),
        decreases to - j,
    {
        if !is_digit_c(v[j]) {
            proof {
                assert(t[j - start] == v@[j as int]);
                assert(!all_digits(t));
            }
            return None;
        }
        j += 1;
    }
    proof {
        assert forall|k: int| 0 <= k < t.len() implies is_digit(#[trigger] t[k]) by {
            assert(t[k] == v@[start + k]);
        }
    }
    parse_digits(v, start, to)
}

/// Ten to the power `n`, or `None` past the machine word.
fn pow10_x(n: usize) -> (r: Option<usize>)
    ensures
        match r {
            Some(x) => x == pow10(n as nat),
            None => pow10(n as nat) > usize::MAX,
        },
{
    let mut acc: usize = 1;
    let mut i: usize = 0;
    while i < n
        invariant
            i <= n,
            acc == pow10(i as nat),
        decreases n - i,
    {
        match acc.checked_mul(10) {
            Some(t) => {
                acc = t;
            },
            None => {
                proof {
                    lemma_pow10_monotone(i as nat + 1, n as nat);
                }
                return None;
            },
        }
        i += 1;
    }
    Some(acc)
}

/// The expression a coefficient and a bare body make, eliding an identity
/// coefficient.
fn wrap_if_scaled(c: Coef, body: UnitExpr) -> (r: UnitExpr)
    ensures
        r@ == wrap_expr(c@, body@),
        coef_wf(c@) && !(body@ is Coef) ==> expr_wf(r@),
{
    let ghost bv = body@;
    if c.is_unit() {
        body
    } else {
        let r = UnitExpr::Coef(c, Box::new(body));
        proof {
            assert(r@->Coef_1 == Box::new(bv));
            assert(*Box::new(bv) == bv);
        }
        r
    }
}

/// The coefficient the digit ranges of a line denote.
fn coef_from_ranges(
    v: &Vec<char>,
    m: usize,
    e1: usize,
    has_frac: bool,
    f: usize,
    has_den: bool,
    g: usize,
) -> (r: Result<Coef, DefError>)
    requires
        m < e1 <= v@.len(),
        has_frac ==> e1 + 1 < f <= v@.len(),
        !has_frac ==> f == e1,
        has_den ==> f + 1 < g <= v@.len(),
        !has_den ==> g == f,
        all_digits(v@.subrange(m as int, e1 as int)),
        has_frac ==> all_digits(v@.subrange(e1 as int + 1, f as int)),
        has_den ==> all_digits(v@.subrange(f as int + 1, g as int)),
    ensures
        ({
            let spec_r = coef_of_parts(
                Some(v@.subrange(m as int, e1 as int)),
                if has_frac {
                    Some(v@.subrange(e1 as int + 1, f as int))
                } else {
                    None
                },
                if has_den {
                    Some(v@.subrange(f as int + 1, g as int))
                } else {
                    None
                },
            );
            match r {
                Ok(c) => spec_r == Ok::<CoefV, DefError>(c@) && coef_wf(c@),
                Err(e) => spec_r == Err::<CoefV, DefError>(e),
            }
        }),
{
    let ghost ip = v@.subrange(m as int, e1 as int);
    if has_frac {
        let ghost fp = v@.subrange(e1 as int + 1, f as int);
        let p = match pow10_x(f - (e1 + 1)) {
            Some(p) => p,
            None => {
                return Err(DefError::NumberTooLarge);
            },
        };
        proof {
            lemma_digits_val_concat(ip, fp);
            lemma_pow10_monotone(0, fp.len());
        }
        let di = match parse_digits(v, m, e1) {
            Some(x) => x,
            None => {
                proof {
                    assert(digits_val(ip + fp) >= digits_val(ip) * pow10(fp.len())
                        >= digits_val(ip)) by (nonlinear_arith)
                        requires
                            digits_val(ip + fp) == digits_val(ip) * pow10(fp.len()) + digits_val(
                                fp,
                            ),
                            pow10(fp.len()) >= 1,
                    ;
                }
                return Err(DefError::NumberTooLarge);
            },
        };
        let df = match parse_digits(v, e1 + 1, f) {
            Some(x) => x,
            None => {
                proof {
                    assert(digits_val(ip + fp) >= digits_val(fp)) by (nonlinear_arith)
                        requires
                            digits_val(ip + fp) == digits_val(ip) * pow10(fp.len()) + digits_val(
                                fp,
                            ),
                    ;
                }
                return Err(DefError::NumberTooLarge);
            },
        };
        let scaled = match di.checked_mul(p) {
            Some(x) => x,
            None => {
                proof {
                    assert(digits_val(ip + fp) >= digits_val(ip) * pow10(fp.len()))
                        by (nonlinear_arith)
                        requires
                            digits_val(ip + fp) == digits_val(ip) * pow10(fp.len()) + digits_val(
                                fp,
                            ),
                    ;
                }
                return Err(DefError::NumberTooLarge);
            },
        };
        let whole = match scaled.checked_add(df) {
            Some(x) => x,
            None => {
                return Err(DefError::NumberTooLarge);
            },
        };
        proof {
            lemma_pow10_monotone(0, fp.len());
        }
        Ok(Coef::Approx(Rational::new(whole, p)))
    } else {
        let di = match parse_digits(v, m, e1) {
            Some(x) => x,
            None => {
                return Err(DefError::NumberTooLarge);
            },
        };
        if has_den {
            let dd = match parse_digits(v, f + 1, g) {
                Some(x) => x,
                None => {
                    return Err(DefError::NumberTooLarge);
                },
            };
            if dd == 0 {
                return Err(DefError::ZeroDenominator);
            }
            Ok(Coef::Rational(Rational::new(di, dd)))
        } else {
            Ok(Coef::Rational(Rational::new(di, 1)))
        }
    }
}

/// The text with surrounding whitespace dropped.
fn trim_str<'a>(s: &'a str) -> (r: &'a str)
    ensures
        r@ == trim(s@),
{
    let w = line_chars(s);
    let mut te = w.len();
    proof {
        assert(s@.subrange(0, s@.len() as int) =~= s@);
        assert(trim_end(s@) == trim_end(s@.subrange(0, te as int)));
    }
    while te > 0 && is_space_c(w[te - 1])
        invariant
            te <= w@.len(),
            w@ == s@,
            trim_end(s@) == trim_end(s@.subrange(0, te as int)),
        decreases te,
    {
        proof {
            assert(s@.subrange(0, te as int).drop_last() =~= s@.subrange(0, te as int - 1));
        }
        te -= 1;
    }
    proof {
        if te > 0 {
            assert(trim_end(s@.subrange(0, te as int)) == te as int);
        } else {
            assert(s@.subrange(0, 0) =~= Seq::<char>::empty());
        }
        assert(trim_end(s@) == te as int);
    }
    let tb = skip_spaces_x(&w, 0);
    if tb >= te {
        let r = s.substring_char(0, 0);
        proof {
            assert(r@ =~= trim(s@));
        }
        r
    } else {
        let r = s.substring_char(tb, te);
        proof {
            assert(r@ =~= trim(s@));
        }
        r
    }
}

/// One reference token taken apart: the base name and how often it counts.
fn expand_ref(tok: &str) -> (r: Result<(String, usize), DefError>)
    ensures
        match r {
            Ok(bk) => expand_token(tok@) == Ok::<(Seq<char>, nat), DefError>(
                (bk.0@, bk.1 as nat),
            ),
            Err(e) => expand_token(tok@) == Err::<(Seq<char>, nat), DefError>(e),
        },
{
    let tv = line_chars(tok);
    let c1 = skip_to_caret_x(&tv, 0);
    if c1 == tv.len() {
        proof {
            assert(tok@.subrange(0, tok@.len() as int) =~= tok@);
        }
        Ok((tok.to_owned(), 1))
    } else {
        let c2 = skip_to_caret_x(&tv, c1 + 1);
        match parse_number(&tv, c1 + 1, c2) {
            Some(k) => Ok((tok.substring_char(0, c1).to_owned(), k)),
            None => Err(DefError::MalformedExponent),
        }
    }
}

/// One reference looked up once and applied `reps` times into the running
/// atoms, coefficient and diagnostics of a line.
fn apply_reference(
    reg: &UnitRegistry,
    base: &String,
    reps: usize,
    atoms: &mut Vec<Basic>,
    coef: &mut Coef,
    diags: &mut Vec<String>,
) -> (r: Result<(), DefError>)
    requires
        reg.wf(),
        coef_wf(old(coef)@),
    ensures
        match r {
            Ok(u) => apply_ref(
                reg@,
                LineAcc {
                    atoms: names(old(atoms)@),
                    coef: old(coef)@,
                    diags: old(diags).deep_view(),
                },
                base@,
                reps as nat,
            ) == Ok::<LineAcc, DefError>(
                LineAcc {
                    atoms: names(final(atoms)@),
                    coef: final(coef)@,
                    diags: final(diags).deep_view(),
                },
            ) && coef_wf(final(coef)@),
            Err(e) => apply_ref(
                reg@,
                LineAcc {
                    atoms: names(old(atoms)@),
                    coef: old(coef)@,
                    diags: old(diags).deep_view(),
                },
                base@,
                reps as nat,
            ) == Err::<LineAcc, DefError>(e),
        },
{
    let ghost rm = reg@;
    let ghost rres = resolve_ref(rm, base@);
    let mut ratoms: Vec<Basic> = Vec::new();
    let mut rcoef = Coef::unit();
    let mut rmiss = false;
    match reg.get(base) {
        None => {
            rmiss = true;
            proof {
                assert(rres.atoms =~= names(ratoms@));
                assert(rres.diags =~= seq![base@]);
            }
        },
        Some(e) => {
            match e {
                UnitExpr::Basic(b) => {
                    ratoms.push(b.clone());
                    proof {
                        assert(rres.atoms =~= names(ratoms@));
                    }
                },
                UnitExpr::Div(n, _d) => {
                    ratoms = crate::units::clone_atoms(n);
                    proof {
                        assert(rres.atoms =~= names(ratoms@));
                    }
                },
                UnitExpr::Coef(c, inner) => {
                    rcoef = *c;
                    proof {
                        assert(*Box::new(crate::units::expr_view(**inner))
                            == crate::units::expr_view(**inner));
                    }
                    match &**inner {
                        UnitExpr::Basic(b) => {
                            proof {
                                assert(crate::units::expr_view(**inner) == UnitExprV::Basic(b@));
                            }
                            ratoms.push(b.clone());
                            proof {
                                assert(rres.atoms =~= names(ratoms@));
                            }
                        },
                        UnitExpr::Div(n, _d) => {
                            proof {
                                assert(crate::units::expr_view(**inner) == UnitExprV::Div(
                                    names(n@),
                                    names(_d@),
                                ));
                            }
                            ratoms = crate::units::clone_atoms(n);
                            proof {
                                assert(rres.atoms =~= names(ratoms@));
                            }
                        },
                        UnitExpr::Coef(_, _) => {
                            proof {
                                assert(crate::units::expr_view(**inner) is Coef);
                                assert(rres.atoms =~= names(ratoms@));
                            }
                        },
                    }
                },
            }
            proof {
                assert(rres.diags =~= Seq::<Seq<char>>::empty());
            }
        },
    }
    proof {
        assert(rres.coef == rcoef@);
        assert(coef_wf(rcoef@));
    }
    let ghost acc0 = LineAcc {
        atoms: names(atoms@),
        coef: coef@,
        diags: diags.deep_view(),
    };
    let mut rep: usize = 0;
    while rep < reps
        invariant
            rep <= reps,
            reg.wf(),
            rm == reg@,
            acc0 == (LineAcc {
                atoms: names(old(atoms)@),
                coef: old(coef)@,
                diags: old(diags).deep_view(),
            }),
            coef_wf(coef@),
            rres == resolve_ref(rm, base@),
            names(ratoms@) == rres.atoms,
            rcoef@ == rres.coef,
            rres.diags == (if rmiss {
                seq![base@]
            } else {
                Seq::<Seq<char>>::empty()
            }),
            apply_ref(rm, acc0, base@, reps as nat) == apply_ref(
                rm,
                LineAcc { atoms: names(atoms@), coef: coef@, diags: diags.deep_view() },
                base@,
                (reps - rep) as nat,
            ),
        decreases reps - rep,
    {
        let ghost cur = LineAcc { atoms: names(atoms@), coef: coef@, diags: diags.deep_view() };
        match coef.checked_multiply(rcoef) {
            None => {
                proof {
                    assert(apply_ref(rm, cur, base@, (reps - rep) as nat) == Err::<
                        LineAcc,
                        DefError,
                    >(DefError::CoefficientOverflow));
                }
                return Err(DefError::CoefficientOverflow);
            },
            Some(c2) => {
                *coef = c2;
                let mut cl = crate::units::clone_atoms(&ratoms);
                let ghost pre_atoms = names(atoms@);
                atoms.append(&mut cl);
                proof {
                    crate::units::lemma_names_concat();
                    assert(names(atoms@) =~= pre_atoms + rres.atoms);
                }
                if rmiss {
                    let ghost pre_diags = diags.deep_view();
                    diags.push(base.clone());
                    proof {
                        assert(diags.deep_view() =~= pre_diags + rres.diags);
                    }
                } else {
                    proof {
                        assert(diags.deep_view() =~= cur.diags + rres.diags);
                    }
                }
                rep += 1;
            },
        }
    }
    proof {
        let fin = LineAcc { atoms: names(atoms@), coef: coef@, diags: diags.deep_view() };
        assert(apply_ref(rm, fin, base@, 0nat) == Ok::<LineAcc, DefError>(fin));
    }
    Ok(())
}

/// The reference tokens of a definition body, resolved left to right.
fn resolve_def(def_str: &str, reg: &UnitRegistry) -> (r: Result<
    (Vec<Basic>, Coef, Vec<String>),
    DefError,
>)
    requires
        reg.wf(),
    ensures
        match r {
            Ok(t) => resolve_tokens(reg@, split_from(def_str@, 0), empty_acc()) == Ok::<
                LineAcc,
                DefError,
            >(LineAcc { atoms: names(t.0@), coef: t.1@, diags: t.2.deep_view() }) && coef_wf(
                t.1@,
            ),
            Err(e) => resolve_tokens(reg@, split_from(def_str@, 0), empty_acc()) == Err::<
                LineAcc,
                DefError,
            >(e),
        },
{
    let ghost defv = def_str@;
    let ghost rm = reg@;
    let dv = line_chars(def_str);
    let mut atoms: Vec<Basic> = Vec::new();
    let mut coef = Coef::unit();
    let mut diags: Vec<String> = Vec::new();
    let mut pos: usize = 0;
    let mut done = false;
    proof {
        assert(names(atoms@) =~= empty_acc().atoms);
        assert(diags.deep_view() =~= empty_acc().diags);
    }
    while !done
        invariant
            reg.wf(),
            rm == reg@,
            defv == def_str@,
            dv@ == defv,
            pos <= dv@.len(),
            coef_wf(coef@),
            !done ==> resolve_tokens(rm, split_from(defv, 0), empty_acc()) == resolve_tokens(
                rm,
                split_from(defv, pos as int),
                LineAcc { atoms: names(atoms@), coef: coef@, diags: diags.deep_view() },
            ),
            done ==> resolve_tokens(rm, split_from(defv, 0), empty_acc()) == Ok::<
                LineAcc,
                DefError,
            >(LineAcc { atoms: names(atoms@), coef: coef@, diags: diags.deep_view() }),
        decreases dv@.len() - pos + (if done {
            0int
        } else {
            1int
        }),
    {
        let ghost acc0 = LineAcc { atoms: names(atoms@), coef: coef@, diags: diags.deep_view() };
        let t = skip_to_space1_x(&dv, pos);
        let ghost tok = defv.subrange(pos as int, t as int);
        let ghost remaining = split_from(defv, pos as int);
        proof {
            if t < dv@.len() {
                assert(remaining == seq![tok] + split_from(defv, t as int + 1));
                assert((seq![tok] + split_from(defv, t as int + 1)).drop_first() =~= split_from(
                    defv,
                    t as int + 1,
                ));
                assert(remaining[0] == tok);
            } else {
                assert(tok == defv.subrange(pos as int, defv.len() as int));
                assert(remaining == seq![tok]);
                assert(remaining[0] == tok);
                assert(remaining.drop_first() =~= Seq::<Seq<char>>::empty());
            }
        }
        let tok_str: &str = def_str.substring_char(pos, t);
        let (base_string, reps) = match expand_ref(tok_str) {
            Ok(bk) => bk,
            Err(e) => {
                proof {
                    assert(resolve_tokens(rm, remaining, acc0) == Err::<LineAcc, DefError>(e));
                }
                return Err(e);
            },
        };
        match apply_reference(reg, &base_string, reps, &mut atoms, &mut coef, &mut diags) {
            Ok(_) => {},
            Err(e) => {
                proof {
                    assert(resolve_tokens(rm, remaining, acc0) == Err::<LineAcc, DefError>(e));
                }
                return Err(e);
            },
        }
        proof {
            let fin = LineAcc { atoms: names(atoms@), coef: coef@, diags: diags.deep_view() };
            assert(resolve_tokens(rm, remaining, acc0) == resolve_tokens(
                rm,
                remaining.drop_first(),
                fin,
            ));
            if t == dv@.len() {
                assert(resolve_tokens(rm, remaining.drop_first(), fin) == Ok::<
                    LineAcc,
                    DefError,
                >(fin));
            }
        }
        if t == dv.len() {
            done = true;
        } else {
            pos = t + 1;
        }
    }
    Ok((atoms, coef, diags))
}

/// One line of definition text, parsed and resolved against the registry
/// built so far.
pub struct LineEntry {
    pub name: String,
    pub expr: UnitExpr,
    pub diags: Vec<String>,
}

/// Parses one definition line against the registry built so far, returning
/// the entry it defines, nothing for a line that does not parse as a
/// definition, or the failure that stops the build.
fn parse_line(line: &str, reg: &UnitRegistry) -> (r: Result<Option<LineEntry>, DefError>)
    requires
        reg.wf(),
    ensures
        match r {
            Err(e) => line_entry(reg@, line@) == Err::<
                Option<(Seq<char>, UnitExprV, Seq<Seq<char>>)>,
                DefError,
            >(e),
            Ok(None) => line_entry(reg@, line@) == Ok::<
                Option<(Seq<char>, UnitExprV, Seq<Seq<char>>)>,
                DefError,
            >(None),
            Ok(Some(le)) => line_entry(reg@, line@) == Ok::<
                Option<(Seq<char>, UnitExprV, Seq<Seq<char>>)>,
                DefError,
            >(Some((le.name@, le.expr@, le.diags.deep_view()))) && expr_wf(le.expr@),
        },
{
    let ghost s = line@;
    let v = line_chars(line);
    let slen = v.len();
    let i0 = skip_spaces_x(&v, 0);
    if i0 == slen {
        return Ok(None);
    }
    let k = skip_non_spaces_x(&v, i0);
    if k == slen {
        return Ok(None);
    }
    let name_str = line.substring_char(i0, k).to_owned();
    let m = skip_spaces_x(&v, k);
    let e1 = skip_digits_x(&v, m);
    let mut nf_end = e1;
    let mut has_frac = false;
    if e1 > m && e1 < slen && v[e1] == '.' {
        let f2 = skip_digits_x(&v, e1 + 1);
        if f2 > e1 + 1 {
            nf_end = f2;
            has_frac = true;
        }
    }
    let mut g_end = nf_end;
    let mut has_den = false;
    if e1 > m && nf_end < slen && v[nf_end] == '|' {
        let g2 = skip_digits_x(&v, nf_end + 1);
        if g2 > nf_end + 1 {
            g_end = g2;
            has_den = true;
        }
    }
    let coef_present = e1 > m && g_end < slen && is_space_c(v[g_end]);
    let def_from = if coef_present {
        skip_spaces_x(&v, g_end)
    } else {
        m
    };
    let def_to = skip_to_hash_x(&v, def_from);
    let ghost shv = LineShape {
        name: s.subrange(i0 as int, k as int),
        num_int: if coef_present {
            Some(s.subrange(m as int, e1 as int))
        } else {
            None
        },
        num_frac: if coef_present && has_frac {
            Some(s.subrange(e1 as int + 1, nf_end as int))
        } else {
            None
        },
        den: if coef_present && has_den {
            Some(s.subrange(nf_end as int + 1, g_end as int))
        } else {
            None
        },
        def: trim(s.subrange(def_from as int, def_to as int)),
    };
    proof {
        assert(line_shape(s) == Some(shv));
    }
    let def_raw: &str = line.substring_char(def_from, def_to);
    let def_str: &str = trim_str(def_raw);
    let dv = line_chars(def_str);
    proof {
        assert(def_str@ == shv.def);
    }
    // the fundamental-unit marker
    if dv.len() == 1 && dv[0] == '!' {
        proof {
            assert(shv.def =~= seq!['!']);
        }
        let c0 = if coef_present {
            match coef_from_ranges(&v, m, e1, has_frac, nf_end, has_den, g_end) {
                Ok(c) => c,
                Err(e) => {
                    return Err(e);
                },
            }
        } else {
            Coef::unit()
        };
        let cm = match Coef::unit().checked_multiply(c0) {
            Some(c) => c,
            None => {
                proof {
                    assert(1 * c0@.num == c0@.num && 1 * c0@.den == c0@.den) by (nonlinear_arith);
                    assert(false);
                }
                return Err(DefError::CoefficientOverflow);
            },
        };
        let expr = wrap_if_scaled(cm, UnitExpr::Basic(Basic(name_str.clone())));
        let empty_diags: Vec<String> = Vec::new();
        proof {
            assert(empty_diags.deep_view() =~= Seq::<Seq<char>>::empty());
        }
        return Ok(Some(LineEntry { name: name_str, expr, diags: empty_diags }));
    }
    proof {
        if shv.def == seq!['!'] {
            assert(dv@.len() == 1 && dv@[0] == '!');
            assert(false);
        }
    }
    // resolve the reference tokens, then the line's own coefficient
    let (atoms, coef, diags) = match resolve_def(def_str, reg) {
        Ok(t) => t,
        Err(e) => {
            return Err(e);
        },
    };
    let c0 = if coef_present {
        match coef_from_ranges(&v, m, e1, has_frac, nf_end, has_den, g_end) {
            Ok(c) => c,
            Err(e) => {
                return Err(e);
            },
        }
    } else {
        Coef::unit()
    };
    let cfin = match coef.checked_multiply(c0) {
        Some(c) => c,
        None => {
            return Err(DefError::CoefficientOverflow);
        },
    };
    let empty_den: Vec<Basic> = Vec::new();
    proof {
        assert(names(empty_den@) =~= Seq::<Seq<char>>::empty());
    }
    let body = UnitExpr::Div(atoms, empty_den);
    let expr = wrap_if_scaled(cfin, body);
    Ok(Some(LineEntry { name: name_str, expr, diags }))
}

/// A failing line keeps the whole build failing.
proof fn lemma_build_err_persists(lines: Seq<Seq<char>>, j: int, n: int)
    requires
        0 <= j <= n,
        build_upto(lines, j) is Err,
    ensures
        build_upto(lines, n) == build_upto(lines, j),
    decreases n - j,
{
    if n > j {
        lemma_build_err_persists(lines, j, n - 1);
    }
}

/// Builds a registry from definition lines, resolved in order; returns it
/// with the diagnostics for unknown references, or the first failure.
pub fn build_registry(lines: &Vec<String>) -> (r: Result<(UnitRegistry, Vec<String>), DefError>)
    ensures
        match r {
            Ok((reg, diags)) => spec_build(lines.deep_view()) == Ok::<
                (Map<Seq<char>, UnitExprV>, Seq<Seq<char>>),
                DefError,
            >((reg@, diags.deep_view())) && reg.wf(),
            Err(e) => spec_build(lines.deep_view()) == Err::<
                (Map<Seq<char>, UnitExprV>, Seq<Seq<char>>),
                DefError,
            >(e),
        },
{
    let ghost lv = lines.deep_view();
    let mut reg = UnitRegistry::new();
    let mut diags: Vec<String> = Vec::new();
    let mut i: usize = 0;
    proof {
        assert(diags.deep_view() =~= Seq::<Seq<char>>::empty());
    }
    while i < lines.len()
        invariant
            i <= lines@.len(),
            lv == lines.deep_view(),
            lv.len() == lines@.len(),
            build_upto(lv, i as int) == Ok::<(Map<Seq<char>, UnitExprV>, Seq<Seq<char>>), DefError>(
                (reg@, diags.deep_view()),
            ),
            reg.wf(),
        decreases lines@.len() - i,
    {
        proof {
            assert(lv[i as int] == lines@[i as int]@);
        }
        match parse_line(lines[i].as_str(), &reg) {
            Err(e) => {
                proof {
                    lemma_build_err_persists(lv, i as int + 1, lv.len() as int);
                }
                return Err(e);
            },
            Ok(None) => {},
            Ok(Some(le)) => {
                let ghost pre_diags = diags.deep_view();
                let ghost d2 = le.diags.deep_view();
                let mut d = le.diags;
                reg.insert(le.name, le.expr);
                diags.append(&mut d);
                proof {
                    assert(diags.deep_view() =~= pre_diags + d2);
                }
            },
        }
        i += 1;
    }
    Ok((reg, diags))
}

/// The built-in definition table, drawn from customary liquid measures
/// chained down from the centimetre.
pub open spec fn default_lines() -> Seq<Seq<char>> {
    seq![
        "cm !"@,
        "inch                    2.54 cm"@,
        "in                      inch"@,
        "usgallon                231 in^3 # US liquid measure is derived from"@,
        "gallon                  usgallon"@,
        "gal                     gallon          # the British wine gallon of 1707."@,
        "quart                   1|4 gallon      # See the \"winegallon\" entry below"@,
        "pint                    1|2 quart       # more historical information."@,
        "gill                    1|4 pint"@,
        "usquart                 1|4 usgallon"@,
        "uspint                  1|2 usquart"@,
        "usgill                  1|4 uspint"@,
        "usfluidounce            1|16 uspint"@,
        "usfloz                  usfluidounce"@,
        "fluiddram               1|8 usfloz"@,
        "minimvolume             1|60 fluiddram"@,
        "qt                      quart"@,
        "pt                      pint"@,
        "uscup                   8 usfloz"@,
        "ustablespoon            1|16 uscup"@,
        "usteaspoon              1|3 ustablespoon"@,
        "ustbl                   ustablespoon"@,
        "ustbsp                  ustablespoon"@,
        "ustblsp                 ustablespoon"@,
        "ustsp                   usteaspoon"@,
    ]
}

/// The built-in definition table as owned lines, in resolution order.
pub fn default_unit_lines() -> (r: Vec<String>)
    ensures
        r.deep_view() == default_lines(),
{
    let mut v: Vec<String> = Vec::new();
    v.push("cm !".to_owned());
    v.push("inch                    2.54 cm".to_owned());
    v.push("in                      inch".to_owned());
    v.push("usgallon                231 in^3 # US liquid measure is derived from".to_owned());
    v.push("gallon                  usgallon".to_owned());
    v.push("gal                     gallon          # the British wine gallon of 1707.".to_owned());
    v.push("quart                   1|4 gallon      # See the \"winegallon\" entry below".to_owned());
    v.push("pint                    1|2 quart       # more historical information.".to_owned());
    v.push("gill                    1|4 pint".to_owned());
    v.push("usquart                 1|4 usgallon".to_owned());
    v.push("uspint                  1|2 usquart".to_owned());
    v.push("usgill                  1|4 uspint".to_owned());
    v.push("usfluidounce            1|16 uspint".to_owned());
    v.push("usfloz                  usfluidounce".to_owned());
    v.push("fluiddram               1|8 usfloz".to_owned());
    v.push("minimvolume             1|60 fluiddram".to_owned());
    v.push("qt                      quart".to_owned());
    v.push("pt                      pint".to_owned());
    v.push("uscup                   8 usfloz".to_owned());
    v.push("ustablespoon            1|16 uscup".to_owned());
    v.push("usteaspoon              1|3 ustablespoon".to_owned());
    v.push("ustbl                   ustablespoon".to_owned());
    v.push("ustbsp                  ustablespoon".to_owned());
    v.push("ustblsp                 ustablespoon".to_owned());
    v.push("ustsp                   usteaspoon".to_owned());
    proof {
        assert(v.deep_view() =~= default_lines());
    }
    v
}

/// Builds the registry from the built-in definition table.
pub fn load_units() -> (r: Result<UnitRegistry, DefError>)
    ensures
        match r {
            Ok(reg) => (spec_build(default_lines()) matches Ok((m, _)) && reg@ == m) && reg.wf(),
            Err(e) => spec_build(default_lines()) is Err && spec_build(default_lines())->Err_0
                == e,
        },
{
    let lines = default_unit_lines();
    match build_registry(&lines) {
        Ok((reg, _diags)) => Ok(reg),
        Err(e) => Err(e),
    }
}


} // verus!
