use vstd::prelude::*;

verus! {

/// An exact fraction of two machine integers, zero or more.
///
/// Cutoffs and tail probabilities are held this way, so that comparing two of
/// them never rounds.
#[derive(Clone, Copy, Debug)]
pub struct Ratio {
    numerator: u64,
    denominator: u64,
}

impl Ratio {
    #[verifier::type_invariant]
    spec fn denominator_is_positive(self) -> bool {
        self.denominator > 0
    }

    /// The number above the line.
    pub closed spec fn spec_numerator(&self) -> nat {
        self.numerator as nat
    }

    /// The number below the line.
    pub closed spec fn spec_denominator(&self) -> nat {
        self.denominator as nat
    }

    /// The number that the fraction stands for.
    pub open spec fn value(&self) -> real {
        (self.spec_numerator() as real) / (self.spec_denominator() as real)
    }

    /// The fraction `numerator / denominator`, if there is one.
    pub fn new(numerator: u64, denominator: u64) -> (ratio: Option<Ratio>)
        ensures
            ratio is None <==> denominator == 0,
            ratio matches Some(r) ==> r.spec_numerator() == numerator && r.spec_denominator()
                == denominator,
    {
        if denominator == 0 {
            None
        } else {
            Some(Ratio { numerator, denominator })
        }
    }

    /// The number above the line.
    pub fn numerator(&self) -> (n: u64)
        ensures
            n == self.spec_numerator(),
    {
        self.numerator
    }

    /// The number below the line, which is never zero.
    pub fn denominator(&self) -> (d: u64)
        ensures
            d == self.spec_denominator(),
            d > 0,
    {
        proof {
            use_type_invariant(self);
        }
        self.denominator
    }

    /// Whether this fraction is strictly below `other`.
    pub fn less_than(&self, other: &Ratio) -> (below: bool)
        ensures
            below == (self.value() < other.value()),
    {
        proof {
            use_type_invariant(self);
            use_type_invariant(other);
            lemma_compare_fractions(
                self.numerator as int,
                self.denominator as int,
                other.numerator as int,
                other.denominator as int,
            );
            lemma_product_fits(self.numerator, other.denominator);
            lemma_product_fits(other.numerator, self.denominator);
        }
        (self.numerator as u128) * (other.denominator as u128) < (other.numerator as u128) * (
        self.denominator as u128)
    }

    /// Whether this fraction is one or more.
    pub fn is_one_or_more(&self) -> (whole: bool)
        ensures
            whole == (self.value() >= 1real),
    {
        proof {
            use_type_invariant(self);
            lemma_compare_fractions(self.numerator as int, self.denominator as int, 1, 1);
            assert(1real == (1 as real) / (1 as real)) by (nonlinear_arith);
        }
        self.numerator >= self.denominator
    }
}

/// Two fractions with positive denominators compare as their cross products do.
pub proof fn lemma_compare_fractions(a: int, b: int, c: int, d: int)
    requires
        b > 0,
        d > 0,
    ensures
        ((a as real) / (b as real) < (c as real) / (d as real)) <==> a * d < c * b,
{
    let ar = a as real;
    let br = b as real;
    let cr = c as real;
    let dr = d as real;
    assert((ar / br < cr / dr) <==> (ar * dr < cr * br)) by (nonlinear_arith)
        requires
            br > 0real,
            dr > 0real,
    ;
    assert((a * d) as real == ar * dr) by (nonlinear_arith)
        requires
            ar == a as real,
            dr == d as real,
    ;
    assert((c * b) as real == cr * br) by (nonlinear_arith)
        requires
            cr == c as real,
            br == b as real,
    ;
}

/// The product of two 64-bit numbers fits in 128 bits.
pub proof fn lemma_product_fits(a: u64, b: u64)
    ensures
        a * b <= u128::MAX,
{
    assert(a * b <= 0xffff_ffff_ffff_ffff * 0xffff_ffff_ffff_ffff) by (nonlinear_arith)
        requires
            0 <= a <= 0xffff_ffff_ffff_ffff,
            0 <= b <= 0xffff_ffff_ffff_ffff,
    ;
}

} // verus!
