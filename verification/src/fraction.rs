//! Exact fractions between zero and one: the rates, probabilities and
//! ratios that configure the operators.

use vstd::prelude::*;

verus! {

/// A fraction `numerator / denominator` with `0 <= numerator <= denominator`
/// and a positive denominator, so a value of the unit interval.
#[derive(Clone, Copy, Debug)]
pub struct Fraction {
    numerator: u32,
    denominator: u32,
}

impl Fraction {
    /// Every `Fraction` lies between zero and one.
    #[verifier::type_invariant]
    pub open spec fn wf(self) -> bool {
        0 < self.spec_denominator() && self.spec_numerator() <= self.spec_denominator()
    }

    pub closed spec fn spec_numerator(&self) -> u32 {
        self.numerator
    }

    pub closed spec fn spec_denominator(&self) -> u32 {
        self.denominator
    }

    /// The fraction `numerator / denominator`, if that lies in the unit interval.
    pub fn new(numerator: u32, denominator: u32) -> (fraction: Option<Fraction>)
        ensures
            fraction is Some <==> 0 < denominator && numerator <= denominator,
            fraction matches Some(f) ==> f.numerator() == numerator && f.denominator()
                == denominator && f.wf(),
    {
        if denominator == 0 || numerator > denominator {
            None
        } else {
            Some(Fraction { numerator, denominator })
        }
    }

    /// The fraction 0.
    pub fn zero() -> (fraction: Fraction)
        ensures
            fraction.numerator() == 0,
            fraction.denominator() == 1,
            fraction.wf(),
    {
        Fraction { numerator: 0, denominator: 1 }
    }

    /// The fraction 1.
    pub fn one() -> (fraction: Fraction)
        ensures
            fraction.numerator() == 1,
            fraction.denominator() == 1,
            fraction.wf(),
    {
        Fraction { numerator: 1, denominator: 1 }
    }

    #[verifier::when_used_as_spec(spec_numerator)]
    pub fn numerator(&self) -> (numerator: u32)
        ensures
            numerator == self.numerator(),
            self.wf(),
    {
        proof {
            use_type_invariant(self);
        }
        self.numerator
    }

    #[verifier::when_used_as_spec(spec_denominator)]
    pub fn denominator(&self) -> (denominator: u32)
        ensures
            denominator == self.denominator(),
            self.wf(),
    {
        proof {
            use_type_invariant(self);
        }
        self.denominator
    }

    /// Whether the fraction is 0.
    pub open spec fn spec_is_zero(&self) -> bool {
        self.numerator() == 0
    }

    /// Whether the fraction is 1.
    pub open spec fn spec_is_one(&self) -> bool {
        self.numerator() == self.denominator()
    }

    #[verifier::when_used_as_spec(spec_is_zero)]
    pub fn is_zero(&self) -> (zero: bool)
        ensures
            zero == self.is_zero(),
            self.wf(),
    {
        proof {
            use_type_invariant(self);
        }
        self.numerator == 0
    }

    #[verifier::when_used_as_spec(spec_is_one)]
    pub fn is_one(&self) -> (one: bool)
        ensures
            one == self.is_one(),
            self.wf(),
    {
        proof {
            use_type_invariant(self);
        }
        self.numerator == self.denominator
    }

    /// One minus the fraction.
    pub closed spec fn spec_complement(&self) -> Fraction {
        Fraction {
            numerator: (self.denominator - self.numerator) as u32,
            denominator: self.denominator,
        }
    }

    /// One minus the fraction.
    #[verifier::when_used_as_spec(spec_complement)]
    pub fn complement(&self) -> (rest: Fraction)
        ensures
            rest == self.complement(),
            rest.denominator() == self.denominator(),
            rest.numerator() == self.denominator() - self.numerator(),
            rest.wf(),
            self.wf(),
    {
        proof {
            use_type_invariant(self);
        }
        Fraction { numerator: self.denominator - self.numerator, denominator: self.denominator }
    }

    /// `count` times the fraction, rounded up to a whole number.
    pub open spec fn spec_ceil_of(&self, count: nat) -> nat {
        ((count * self.numerator() + self.denominator() - 1) / (self.denominator() as int)) as nat
    }

    /// `count` times the fraction, rounded up to a whole number.
    pub fn ceil_of(&self, count: usize) -> (scaled: usize)
        ensures
            scaled == self.spec_ceil_of(count as nat),
            scaled <= count,
    {
        proof {
            use_type_invariant(self);
            law_ceil_of(*self, count as nat);
        }
        let numerator: u128 = self.numerator as u128;
        let denominator: u128 = self.denominator as u128;
        assert(count as u128 * numerator <= 0xffff_ffff_ffff_ffff * 0xffff_ffff) by (nonlinear_arith)
            requires
                count as u128 <= 0xffff_ffff_ffff_ffff,
                numerator <= 0xffff_ffff,
        ;
        let product: u128 = count as u128 * numerator;
        ((product + denominator - 1) / denominator) as usize
    }
}

/// `ceil_of` is the ceiling of the exact product: the least whole number
/// that is not below `count * numerator / denominator`. It never exceeds
/// `count`.
pub proof fn law_ceil_of(fraction: Fraction, count: nat)
    requires
        fraction.wf(),
    ensures
        fraction.spec_ceil_of(count) * fraction.denominator() >= count * fraction.numerator(),
        (fraction.spec_ceil_of(count) - 1) * fraction.denominator() < count * fraction.numerator(),
        fraction.spec_ceil_of(count) <= count,
        fraction.is_one() ==> fraction.spec_ceil_of(count) == count,
        fraction.is_zero() ==> fraction.spec_ceil_of(count) == 0,
{
    let n = fraction.numerator() as int;
    let d = fraction.denominator() as int;
    let a = count * n;
    let c = (a + d - 1) / d;
    assert(0 <= a) by (nonlinear_arith)
        requires
            a == count * n,
            0 <= n,
    ;
    assert(a + d - 1 == d * c + (a + d - 1) % d && 0 <= (a + d - 1) % d < d) by {
        vstd::arithmetic::div_mod::lemma_fundamental_div_mod(a + d - 1, d);
    }
    assert(c * d == d * c) by (nonlinear_arith);
    assert((c - 1) * d == d * c - d) by (nonlinear_arith);
    assert(0 <= c) by (nonlinear_arith)
        requires
            d * c >= 0 - d + 1,
            d > 0,
    ;
    assert(c <= count) by (nonlinear_arith)
        requires
            d * c <= a + d - 1,
            a == count * n,
            n <= d,
            0 < d,
            0 <= count,
    ;
    if n == d {
        assert(c >= count) by (nonlinear_arith)
            requires
                d * c >= a,
                a == count * d,
                0 < d,
        ;
    }
    if n == 0 {
        assert(a == 0) by (nonlinear_arith)
            requires
                a == count * n,
                n == 0,
        ;
        assert(c <= 0) by (nonlinear_arith)
            requires
                d * c <= d - 1,
                0 < d,
        ;
    }
}

} // verus!
