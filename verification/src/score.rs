//! Exact scores: non-negative rationals kept in lowest terms.

use crate::text::decimal;
use vstd::prelude::*;

verus! {

/// Greatest common divisor, by Euclid's algorithm.
pub open spec fn gcd(a: nat, b: nat) -> nat
    decreases b,
{
    if b == 0 {
        a
    } else {
        gcd(b, a % b)
    }
}

/// A non-negative rational number `numer / denom`.
#[derive(Clone, Copy, PartialEq, Eq, Structural, Debug)]
pub struct Score {
    pub numer: u8,
    pub denom: u8,
}

impl Score {
    /// `numer / denom` written in lowest terms.
    pub open spec fn lowest_terms(numer: nat, denom: nat) -> Score {
        Score {
            numer: (numer / gcd(numer, denom)) as u8,
            denom: (denom / gcd(numer, denom)) as u8,
        }
    }

    /// Builds `numer / denom` in lowest terms.
    ///
    /// Wraps `fraction::GenericFraction::<u8>::new`, which for a non-zero
    /// denominator divides both numbers by their greatest common divisor
    /// (and turns `0 / d` into `0 / 1`). A zero denominator is left out:
    /// the outside type then holds no ratio.
    #[verifier::external_body]
    pub(crate) fn reduced(numer: u8, denom: u8) -> (r: Score)
        requires
            denom != 0,
        ensures
            r == Score::lowest_terms(numer as nat, denom as nat),
    {
        let f = fraction::GenericFraction::<u8>::new(numer, denom);
        Score { numer: *f.numer().unwrap(), denom: *f.denom().unwrap() }
    }

    /// The sum of two scores, in lowest terms.
    ///
    /// Wraps the `+` of `fraction::GenericFraction<u8>`, which brings the
    /// two ratios to their least common denominator, adds the numerators
    /// and reduces the result. The sum of two ratios has one writing in
    /// lowest terms only, so it is the one of the sum over the product of
    /// the denominators. The outside type computes in `u8`: numbers whose
    /// sum over that denominator does not fit are left out, and so are
    /// zero denominators.
    #[verifier::external_body]
    pub(crate) fn sum(a: Score, b: Score) -> (r: Score)
        requires
            a.denom != 0,
            b.denom != 0,
            a.numer * b.denom + b.numer * a.denom <= 255,
            a.denom * b.denom <= 255,
        ensures
            r == Score::lowest_terms(
                (a.numer * b.denom + b.numer * a.denom) as nat,
                (a.denom * b.denom) as nat,
            ),
    {
        let f = fraction::GenericFraction::<u8>::new_raw(a.numer, a.denom)
            + fraction::GenericFraction::<u8>::new_raw(b.numer, b.denom);
        Score { numer: *f.numer().unwrap(), denom: *f.denom().unwrap() }
    }

    /// The text of this score; wraps the `Display` form of
    /// `fraction::GenericFraction<u8>`, which for a ratio formatted with
    /// `{}` writes the digits of the numerator and, unless the numerator
    /// is zero or the denominator is one, a slash and the digits of the
    /// denominator.
    #[verifier::external_body]
    pub(crate) fn display(&self) -> (r: String)
        requires
            self.denom != 0,
        ensures
            r@ == fraction_text(self.numer, self.denom),
    {
        format!("{}", fraction::GenericFraction::<u8>::new_raw(self.numer, self.denom))
    }

    /// A whole number of points.
    pub fn whole(n: u8) -> (r: Score)
        ensures
            r == (Score { numer: n, denom: 1 }),
    {
        proof {
            reveal_with_fuel(gcd, 3);
            assert(gcd(n as nat, 1) == 1);
        }
        Score::reduced(n, 1)
    }

    /// This score as a string.
    pub fn to_text(&self) -> (r: String)
        requires
            self.denom != 0,
        ensures
            r@ == fraction_text(self.numer, self.denom),
    {
        self.display()
    }
}

/// How the ratio `numer / denom` is written: the numerator in decimal
/// and, unless the numerator is zero or the denominator is one, a slash
/// and the denominator in decimal.
pub open spec fn fraction_text(numer: u8, denom: u8) -> Seq<char> {
    if numer == 0 || denom == 1 {
        decimal(numer as nat)
    } else {
        decimal(numer as nat) + seq!['/'] + decimal(denom as nat)
    }
}

/// The score of nothing.
pub fn zero() -> (r: Score)
    ensures
        r == (Score { numer: 0, denom: 1 }),
{
    Score::whole(0)
}

/// One whole point.
pub fn one() -> (r: Score)
    ensures
        r == (Score { numer: 1, denom: 1 }),
{
    Score::whole(1)
}

/// The greatest common divisor of a number and a positive number is
/// positive and divides the second.
pub proof fn lemma_gcd_divides(a: nat, b: nat)
    requires
        a > 0 || b > 0,
    ensures
        gcd(a, b) > 0,
        a % gcd(a, b) == 0,
        b % gcd(a, b) == 0,
    decreases b,
{
    if b != 0 {
        lemma_gcd_divides(b, a % b);
        let g = gcd(b, a % b);
        assert(gcd(a, b) == g);
        let q = a / b;
        assert(a == q * b + a % b) by {
            vstd::arithmetic::div_mod::lemma_fundamental_div_mod(a as int, b as int);
            assert(b * q == q * b) by (nonlinear_arith);
        }
        let kb = b / g;
        let kr = (a % b) / g;
        assert(b == kb * g) by {
            vstd::arithmetic::div_mod::lemma_fundamental_div_mod(b as int, g as int);
            assert(g * kb == kb * g) by (nonlinear_arith);
        }
        assert(a % b == kr * g) by {
            vstd::arithmetic::div_mod::lemma_fundamental_div_mod((a % b) as int, g as int);
            assert(g * kr == kr * g) by (nonlinear_arith);
        }
        assert(a == (q * kb + kr) * g) by (nonlinear_arith)
            requires
                a == q * b + a % b,
                b == kb * g,
                a % b == kr * g,
        ;
        vstd::arithmetic::div_mod::lemma_mod_multiples_basic((q * kb + kr) as int, g as int);
    } else {
        vstd::arithmetic::div_mod::lemma_mod_self_0(a as int);
    }
}

/// A score in lowest terms has a positive denominator no larger than the
/// denominator it was built from.
pub proof fn lemma_lowest_terms_denominator(numer: nat, denom: nat)
    requires
        0 < denom <= 255,
    ensures
        0 < Score::lowest_terms(numer, denom).denom <= denom,
{
    lemma_gcd_divides(numer, denom);
    let g = gcd(numer, denom);
    vstd::arithmetic::div_mod::lemma_fundamental_div_mod(denom as int, g as int);
    let k = denom / g;
    assert(denom == g * k);
    assert(k > 0) by (nonlinear_arith)
        requires
            denom == g * k,
            denom > 0,
            g > 0,
    ;
    assert(k <= denom) by (nonlinear_arith)
        requires
            denom == g * k,
            g > 0,
            k > 0,
    ;
}

/// A whole number over one is in lowest terms.
pub proof fn lemma_whole_in_lowest_terms(n: nat)
    requires
        n <= 255,
    ensures
        Score::lowest_terms(n, 1) == (Score { numer: n as u8, denom: 1 }),
{
    reveal_with_fuel(gcd, 3);
    assert(gcd(n, 1) == 1);
}

/// A number of thirds in lowest terms: a whole number if the thirds make
/// up whole points, the thirds themselves otherwise.
pub proof fn lemma_thirds_in_lowest_terms(t: nat)
    requires
        t <= 255,
    ensures
        Score::lowest_terms(t, 3) == if t % 3 == 0 {
            Score { numer: (t / 3) as u8, denom: 1 }
        } else {
            Score { numer: t as u8, denom: 3 }
        },
{
    reveal_with_fuel(gcd, 3);
    let g = gcd(t, 3);
    assert(g == gcd(3, t % 3));
    if t % 3 == 0 {
        assert(g == 3);
        assert(3nat / g == 1 && t / g == t / 3) by (nonlinear_arith)
            requires
                g == 3,
        ;
    } else {
        if t % 3 == 1 {
            assert(3nat % 1nat == 0);
            assert(gcd(3, 1) == gcd(1, 0));
        } else {
            assert(3nat % 2nat == 1);
            assert(gcd(3, 2) == gcd(2, 1));
            assert(2nat % 1nat == 0);
            assert(gcd(2, 1) == gcd(1, 0));
        }
        assert(g == 1);
        assert(3nat / g == 3 && t / g == t) by (nonlinear_arith)
            requires
                g == 1,
        ;
    }
}

/// Thrice a number over nine is the number over three.
pub proof fn lemma_ninths_in_lowest_terms(m: nat)
    requires
        3 * m <= 255,
    ensures
        Score::lowest_terms(3 * m, 9) == Score::lowest_terms(m, 3),
{
    reveal_with_fuel(gcd, 3);
    lemma_thirds_in_lowest_terms(m);
    let g = gcd(3 * m, 9);
    let r = (3 * m) % 9;
    assert(g == gcd(9, r));
    if m % 3 == 0 {
        assert(r == 0);
        assert(g == 9);
        assert(9nat / g == 1 && (3 * m) / g == m / 3) by (nonlinear_arith)
            requires
                g == 9,
        ;
    } else {
        if m % 3 == 1 {
            assert(r == 3);
            assert(9nat % 3nat == 0);
            assert(gcd(9, 3) == gcd(3, 0));
        } else {
            assert(r == 6);
            assert(9nat % 6nat == 3);
            assert(gcd(9, 6) == gcd(6, 3));
            assert(6nat % 3nat == 0);
            assert(gcd(6, 3) == gcd(3, 0));
        }
        assert(g == 3);
        assert(9nat / g == 3 && (3 * m) / g == m) by (nonlinear_arith)
            requires
                g == 3,
        ;
    }
}

/// Scores that are numbers of thirds add up as their thirds do, and the
/// sum can be taken in `u8`.
pub proof fn lemma_sum_of_thirds(s: nat, t: nat)
    requires
        s + t <= 80,
    ensures
        ({
            let a = Score::lowest_terms(s, 3);
            let b = Score::lowest_terms(t, 3);
            &&& a.denom != 0
            &&& b.denom != 0
            &&& a.numer * b.denom + b.numer * a.denom <= 255
            &&& a.denom * b.denom <= 255
            &&& Score::lowest_terms(
                (a.numer * b.denom + b.numer * a.denom) as nat,
                (a.denom * b.denom) as nat,
            ) == Score::lowest_terms(s + t, 3)
        }),
{
    lemma_thirds_in_lowest_terms(s);
    lemma_thirds_in_lowest_terms(t);
    lemma_thirds_in_lowest_terms(s + t);
    let a = Score::lowest_terms(s, 3);
    let b = Score::lowest_terms(t, 3);
    let (an, ad) = (a.numer as int, a.denom as int);
    let (bn, bd) = (b.numer as int, b.denom as int);
    let cross = an * bd + bn * ad;
    let both = ad * bd;
    if s % 3 == 0 && t % 3 == 0 {
        assert(cross == s / 3 + t / 3 && both == 1) by (nonlinear_arith)
            requires
                cross == an * bd + bn * ad,
                both == ad * bd,
                an == s / 3,
                bn == t / 3,
                ad == 1,
                bd == 1,
        ;
        assert((s + t) / 3 == s / 3 + t / 3);
        lemma_whole_in_lowest_terms((s / 3 + t / 3) as nat);
    } else if s % 3 == 0 {
        assert(cross == s + t && both == 3) by (nonlinear_arith)
            requires
                cross == an * bd + bn * ad,
                both == ad * bd,
                an == s / 3,
                s % 3 == 0,
                bn == t,
                ad == 1,
                bd == 3,
        ;
    } else if t % 3 == 0 {
        assert(cross == s + t && both == 3) by (nonlinear_arith)
            requires
                cross == an * bd + bn * ad,
                both == ad * bd,
                an == s,
                bn == t / 3,
                t % 3 == 0,
                ad == 3,
                bd == 1,
        ;
    } else {
        assert(cross == 3 * (s + t) && both == 9) by (nonlinear_arith)
            requires
                cross == an * bd + bn * ad,
                both == ad * bd,
                an == s,
                bn == t,
                ad == 3,
                bd == 3,
        ;
        lemma_ninths_in_lowest_terms(s + t);
    }
}

/// Whole scores add up as their numbers do.
pub proof fn lemma_sum_of_wholes(s: nat, t: nat)
    requires
        s + t <= 255,
    ensures
        Score::lowest_terms(s * 1 + t * 1, 1) == (Score { numer: (s + t) as u8, denom: 1 }),
{
    lemma_whole_in_lowest_terms(s + t);
}

} // verus!
