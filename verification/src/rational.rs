//! Exact non-negative fractions, used for every rhythmic computation so that
//! nested tuplets never drift.

use vstd::prelude::*;
use vstd::arithmetic::div_mod::*;
use vstd::arithmetic::mul::*;

verus! {

/// The greatest common divisor of `a` and `b`; `gcd(0, 0)` is `0`.
pub open spec fn gcd(a: nat, b: nat) -> nat
    decreases b,
{
    if b == 0 {
        a
    } else {
        gcd(b, a % b)
    }
}

/// `d` divides `n`.
pub open spec fn divides(d: nat, n: nat) -> bool {
    exists|k: nat| n == #[trigger] (k * d)
}

/// The numerator and denominator of `num / den` in lowest terms.
pub open spec fn reduced(num: nat, den: nat) -> (nat, nat) {
    (num / gcd(num, den), den / gcd(num, den))
}

/// `floor(num / den * 4 * ppq)`: the length in ticks of `num / den` of a
/// whole note, a whole note being four quarter notes of `ppq` ticks each.
pub open spec fn ticks_of(num: nat, den: nat, ppq: nat) -> nat {
    (num * 4 * ppq) / den
}

/// `gcd(a, b)` divides both of its arguments.
pub proof fn lemma_gcd_divides(a: nat, b: nat)
    ensures
        divides(gcd(a, b), a),
        divides(gcd(a, b), b),
    decreases b,
{
    let g = gcd(a, b);
    if b == 0 {
        assert(a == 1 * g);
        assert(b == 0 * g);
    } else {
        lemma_gcd_divides(b, a % b);
        let kb = choose|k: nat| b == #[trigger] (k * g);
        let kr = choose|k: nat| a % b == #[trigger] (k * g);
        lemma_fundamental_div_mod(a as int, b as int);
        let q = a / b;
        assert(a == (q * kb + kr) * g) by (nonlinear_arith)
            requires
                a == b * q + a % b,
                b == kb * g,
                a % b == kr * g,
        ;
        assert(a == ((q * kb + kr) as nat) * g);
    }
}

/// Every common divisor of `a` and `b` divides `gcd(a, b)`.
pub proof fn lemma_gcd_greatest(a: nat, b: nat, d: nat)
    requires
        divides(d, a),
        divides(d, b),
    ensures
        divides(d, gcd(a, b)),
    decreases b,
{
    if b != 0 {
        let ka = choose|k: nat| a == #[trigger] (k * d);
        let kb = choose|k: nat| b == #[trigger] (k * d);
        lemma_fundamental_div_mod(a as int, b as int);
        let q = a / b;
        assert(ka >= q * kb) by (nonlinear_arith)
            requires
                a == b * q + a % b,
                a % b >= 0,
                a == ka * d,
                b == kb * d,
                b > 0,
        ;
        let kr = (ka - q * kb) as nat;
        assert(b * q == (q * kb) * d) by (nonlinear_arith)
            requires
                b == kb * d,
        ;
        assert(kr * d == ka * d - (q * kb) * d) by (nonlinear_arith)
            requires
                kr == ka - q * kb,
        ;
        assert(a % b == kr * d);
        lemma_gcd_greatest(b, a % b, d);
    }
}

/// `gcd(a, b)` is positive unless both arguments are zero.
pub proof fn lemma_gcd_positive(a: nat, b: nat)
    requires
        a > 0 || b > 0,
    ensures
        gcd(a, b) > 0,
    decreases b,
{
    if b != 0 {
        lemma_gcd_positive(b, a % b);
    }
}

/// Scaling both arguments by `k` scales their greatest common divisor by `k`.
pub proof fn lemma_gcd_scales(a: nat, b: nat, k: nat)
    requires
        k > 0,
    ensures
        gcd(a * k, b * k) == gcd(a, b) * k,
    decreases b,
{
    if b == 0 {
        assert(b * k == 0);
    } else {
        lemma_mul_strictly_positive(b as int, k as int);
        lemma_truncate_middle(a as int, k as int, b as int);
        assert((k * a) % (k * b) == k * (a % b));
        lemma_mul_is_commutative(a as int, k as int);
        lemma_mul_is_commutative(b as int, k as int);
        lemma_mul_is_commutative((a % b) as int, k as int);
        assert((a * k) % (b * k) == (a % b) * k);
        lemma_gcd_scales(b, a % b, k);
    }
}

/// An exact non-negative fraction `num / den`.
#[derive(Debug, Clone, Copy, PartialEq, Eq, Hash, Structural)]
pub struct Rational {
    pub num: u64,
    pub den: u64,
}

/// `num_integer::Integer::gcd` on `u64`: the greatest common divisor of the
/// two arguments, with `gcd(0, n) == gcd(n, 0) == n`. It does not panic.
#[verifier::external_body]
fn gcd_u64(a: u64, b: u64) -> (g: u64)
    ensures
        g == gcd(a as nat, b as nat),
{
    num_integer::Integer::gcd(&a, &b)
}

impl Rational {
    /// The denominator is positive and shares no factor with the numerator.
    pub open spec fn wf(self) -> bool {
        self.den > 0 && gcd(self.num as nat, self.den as nat) == 1
    }

    /// What `new` builds from `num` and `den`.
    pub open spec fn spec_new(num: u64, den: u64) -> Rational {
        Rational {
            num: reduced(num as nat, den as nat).0 as u64,
            den: reduced(num as nat, den as nat).1 as u64,
        }
    }

    /// What `to_ticks` computes, as an unbounded integer.
    pub open spec fn ticks(self, ppq: u32) -> nat {
        ticks_of(self.num as nat, self.den as nat, ppq as nat)
    }

    /// The fraction `num / den` in lowest terms.
    pub fn new(num: u64, den: u64) -> (r: Self)
        requires
            den != 0,
        ensures
            r == Self::spec_new(num, den),
            r.wf(),
            r.num * den == num * r.den,
    {
        let g = gcd_u64(num, den);
        proof {
            lemma_reduced(num as nat, den as nat);
        }
        Self { num: num / g, den: den / g }
    }

    /// `new`, or `None` for a zero denominator.
    pub fn checked_new(num: u64, den: u64) -> (r: Option<Self>)
        ensures
            den == 0 ==> r is None,
            den != 0 ==> r == Some(Self::spec_new(num, den)) && r->0.wf(),
    {
        if den == 0 {
            None
        } else {
            Some(Self::new(num, den))
        }
    }

    /// The length of this fraction of a whole note in ticks, at `ppq` ticks
    /// per quarter note, rounded down.
    pub fn to_ticks(&self, ppq: u32) -> (t: u64)
        requires
            self.den != 0,
            self.ticks(ppq) <= u64::MAX,
        ensures
            t == self.ticks(ppq),
    {
        let wide: u128 = self.scaled(ppq);
        let q: u128 = wide / (self.den as u128);
        q as u64
    }

    /// `to_ticks`, or `None` where the denominator is zero or the result
    /// leaves `u64`.
    pub fn checked_to_ticks(&self, ppq: u32) -> (t: Option<u64>)
        ensures
            t is Some <==> self.den != 0 && self.ticks(ppq) <= u64::MAX,
            t matches Some(n) ==> n == self.ticks(ppq),
    {
        if self.den == 0 {
            return None;
        }
        let wide: u128 = self.scaled(ppq);
        let q: u128 = wide / (self.den as u128);
        if q > u64::MAX as u128 {
            None
        } else {
            Some(q as u64)
        }
    }

    /// `num * 4 * ppq`, which always fits 128 bits.
    fn scaled(&self, ppq: u32) -> (w: u128)
        ensures
            w == self.num * 4 * ppq,
    {
        assert(self.num * 4 * ppq <= 0xffff_ffff_ffff_ffff * 4 * 0xffff_ffff) by (nonlinear_arith)
            requires
                self.num <= 0xffff_ffff_ffff_ffff,
                ppq <= 0xffff_ffff,
        ;
        assert(self.num * 4 <= 0xffff_ffff_ffff_ffff * 4);
        (self.num as u128) * 4 * (ppq as u128)
    }
}

/// For a positive denominator, `reduced` yields a fraction of the same value
/// whose parts are no greater than the given ones and share no factor.
pub proof fn lemma_reduced(num: nat, den: nat)
    requires
        den > 0,
    ensures
        gcd(num, den) > 0,
        reduced(num, den).0 <= num,
        0 < reduced(num, den).1 <= den,
        reduced(num, den).0 * den == num * reduced(num, den).1,
        gcd(reduced(num, den).0, reduced(num, den).1) == 1,
        reduced(num, den).0 * gcd(num, den) == num,
        reduced(num, den).1 * gcd(num, den) == den,
{
    let g = gcd(num, den);
    lemma_gcd_positive(num, den);
    lemma_gcd_divides(num, den);
    let kn = choose|k: nat| num == #[trigger] (k * g);
    let kd = choose|k: nat| den == #[trigger] (k * g);
    lemma_div_multiples_vanish(kn as int, g as int);
    lemma_div_multiples_vanish(kd as int, g as int);
    lemma_mul_is_commutative(kn as int, g as int);
    lemma_mul_is_commutative(kd as int, g as int);
    assert(num / g == kn);
    assert(den / g == kd);
    assert(kn <= num && kd <= den && kd > 0) by (nonlinear_arith)
        requires
            num == kn * g,
            den == kd * g,
            g > 0,
            den > 0,
    ;
    assert(kn * den == num * kd) by (nonlinear_arith)
        requires
            num == kn * g,
            den == kd * g,
    ;
    lemma_gcd_scales(kn, kd, g);
    assert(gcd(kn, kd) == 1) by (nonlinear_arith)
        requires
            gcd(kn, kd) * g == g,
            g > 0,
    ;
}

/// Scaling numerator and denominator by the same positive factor does not
/// change the fraction in lowest terms.
pub proof fn lemma_reduced_scale_invariant(a: nat, b: nat, k: nat)
    requires
        b > 0,
        k > 0,
    ensures
        reduced(a, b) == reduced(a * k, b * k),
{
    let g = gcd(a, b);
    lemma_reduced(a, b);
    lemma_gcd_scales(a, b, k);
    lemma_mul_strictly_positive(g as int, k as int);
    lemma_div_denominator_cancel(a, g, k);
    lemma_div_denominator_cancel(b, g, k);
}

proof fn lemma_div_denominator_cancel(x: nat, g: nat, k: nat)
    requires
        g > 0,
        k > 0,
    ensures
        (x * k) / (g * k) == x / g,
{
    lemma_div_denominator(x as int * k as int, k as int, g as int);
    lemma_div_multiples_vanish(x as int, k as int);
    lemma_mul_is_commutative(x as int, k as int);
    lemma_mul_is_commutative(g as int, k as int);
}

/// Two constructions from proportional arguments give equal fractions.
pub proof fn lemma_new_scale_invariant(a: u64, b: u64, k: u64)
    requires
        b > 0,
        k > 0,
        a * k <= u64::MAX,
        b * k <= u64::MAX,
    ensures
        Rational::spec_new(a, b) == Rational::spec_new((a * k) as u64, (b * k) as u64),
{
    lemma_reduced_scale_invariant(a as nat, b as nat, k as nat);
}

} // verus!
