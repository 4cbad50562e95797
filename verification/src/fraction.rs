//! Exact fractions in the closed interval [0, 1], used for the elite and
//! selection percentages of reproduction.

use vstd::prelude::*;

verus! {

/// A fraction `num / den` with `0 < den` and `num <= den`, i.e. a value in
/// the closed interval [0, 1].
#[derive(Clone, Copy, Debug)]
pub struct Fraction {
    num: u32,
    den: u32,
}

impl Fraction {
    /// The numerator, as a mathematical integer.
    pub closed spec fn num_spec(self) -> int {
        self.num as int
    }

    /// The denominator, as a mathematical integer.
    pub closed spec fn den_spec(self) -> int {
        self.den as int
    }

    /// Well-formedness: the denominator is positive and the value is at most 1.
    pub open spec fn wf(self) -> bool {
        0 < self.den_spec() && self.num_spec() <= self.den_spec()
    }

    /// `self <= other` as rational numbers.
    pub open spec fn le_spec(self, other: Fraction) -> bool {
        self.num_spec() * other.den_spec() <= other.num_spec() * self.den_spec()
    }

    pub fn new(num: u32, den: u32) -> (r: Fraction)
        requires
            0 < den,
            num <= den,
        ensures
            r.num_spec() == num,
            r.den_spec() == den,
            r.wf(),
    {
        Fraction { num, den }
    }

    pub fn num(&self) -> (r: u32)
        ensures
            r == self.num_spec(),
    {
        self.num
    }

    pub fn den(&self) -> (r: u32)
        ensures
            r == self.den_spec(),
    {
        self.den
    }

    /// The complementary fraction `1 - self`, i.e. `(den - num) / den`.
    pub fn complement(&self) -> (r: Fraction)
        requires
            self.wf(),
        ensures
            r.wf(),
            r.num_spec() == self.den_spec() - self.num_spec(),
            r.den_spec() == self.den_spec(),
    {
        Fraction { num: self.den - self.num, den: self.den }
    }

    /// `self <= other`, decided exactly by cross-multiplication.
    pub fn le(&self, other: &Fraction) -> (r: bool)
        requires
            self.wf(),
            other.wf(),
        ensures
            r == self.le_spec(*other),
    {
        let a: u64 = self.num as u64;
        let b: u64 = other.den as u64;
        let c: u64 = other.num as u64;
        let d: u64 = self.den as u64;
        proof {
            assert(a * b <= 0xffff_ffff_ffff_ffff && c * d <= 0xffff_ffff_ffff_ffff)
                by (nonlinear_arith)
                requires
                    a <= 0xffff_ffff,
                    b <= 0xffff_ffff,
                    c <= 0xffff_ffff,
                    d <= 0xffff_ffff,
            ;
        }
        a * b <= c * d
    }
}

} // verus!
