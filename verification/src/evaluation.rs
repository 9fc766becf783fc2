//! Exact evaluations: fractions of integers, compared without rounding.

use vstd::prelude::*;

verus! {

/// Whether the fraction `an / ad` is strictly greater than `bn / bd`,
/// for positive denominators.
pub open spec fn exceeds(an: int, ad: int, bn: int, bd: int) -> bool
    recommends
        ad > 0,
        bd > 0,
{
    an * bd > bn * ad
}

/// Whether the fractions `an / ad` and `bn / bd` are the same number, for
/// positive denominators.
pub open spec fn same_value(an: int, ad: int, bn: int, bd: int) -> bool
    recommends
        ad > 0,
        bd > 0,
{
    an * bd == bn * ad
}

/// The evaluation of a move: the fraction `num / den`, not reduced.
#[derive(Clone, Copy, Debug)]
pub struct Evaluation {
    pub num: i64,
    pub den: i64,
}

impl Evaluation {
    /// The evaluation that equals the whole number `score`.
    pub fn whole(score: i16) -> (r: Evaluation)
        ensures
            r.num == score,
            r.den == 1,
    {
        Evaluation { num: score as i64, den: 1 }
    }

    /// Whether this evaluation is the same number as `other`.
    pub fn equals(&self, other: &Evaluation) -> (r: bool)
        requires
            self.den > 0,
            other.den > 0,
        ensures
            r == same_value(self.num as int, self.den as int, other.num as int, other.den as int),
    {
        let an: i128 = self.num as i128;
        let ad: i128 = self.den as i128;
        let bn: i128 = other.num as i128;
        let bd: i128 = other.den as i128;
        proof {
            lemma_product_fits(an as int, bd as int);
            lemma_product_fits(bn as int, ad as int);
        }
        an * bd == bn * ad
    }

    /// Whether this evaluation is strictly greater than `other`.
    pub fn exceeds(&self, other: &Evaluation) -> (r: bool)
        requires
            self.den > 0,
            other.den > 0,
        ensures
            r == exceeds(self.num as int, self.den as int, other.num as int, other.den as int),
    {
        let an: i128 = self.num as i128;
        let ad: i128 = self.den as i128;
        let bn: i128 = other.num as i128;
        let bd: i128 = other.den as i128;
        proof {
            lemma_product_fits(an as int, bd as int);
            lemma_product_fits(bn as int, ad as int);
        }
        an * bd > bn * ad
    }
}

/// The product of two 64-bit values fits in 128 bits.
pub proof fn lemma_product_fits(x: int, y: int)
    requires
        -0x8000_0000_0000_0000 <= x < 0x8000_0000_0000_0000,
        -0x8000_0000_0000_0000 <= y < 0x8000_0000_0000_0000,
    ensures
        -0x4000_0000_0000_0000_0000_0000_0000_0000 <= x * y <= 0x4000_0000_0000_0000_0000_0000_0000_0000,
{
    assert(-0x4000_0000_0000_0000_0000_0000_0000_0000 <= x * y <= 0x4000_0000_0000_0000_0000_0000_0000_0000)
        by (nonlinear_arith)
        requires
            -0x8000_0000_0000_0000 <= x < 0x8000_0000_0000_0000,
            -0x8000_0000_0000_0000 <= y < 0x8000_0000_0000_0000,
    ;
}

} // verus!
