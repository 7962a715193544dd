use vstd::prelude::*;
use rust_decimal::Decimal;

verus! {

/// Largest mantissa that a decimal can hold: 2^96 - 1.
pub const MAX_MANTISSA: i128 = 79228162514264337593543950335;

/// Largest number of fractional digits that a decimal can hold.
pub const MAX_SCALE: u32 = 28;

/// 10 to the power `n`.
pub open spec fn pow10(n: nat) -> int
    decreases n,
{
    if n == 0 {
        1
    } else {
        10 * pow10((n - 1) as nat)
    }
}

proof fn lemma_pow10_monotone(a: nat, b: nat)
    requires
        a <= b,
    ensures
        0 < pow10(a) <= pow10(b),
    decreases b,
{
    if a < b {
        lemma_pow10_monotone(a, (b - 1) as nat);
    } else if a > 0 {
        lemma_pow10_monotone((a - 1) as nat, (a - 1) as nat);
    }
}

/// An amount with at most four fractional digits whose size is at most half of
/// what such a decimal can hold, so that the sum or difference of two of them is
/// exact.
pub open spec fn in_bound(x: Amount) -> bool {
    &&& x.wf()
    &&& x.scale <= 4
    &&& -MAX_MANTISSA * pow10(24) <= 2 * x.value() <= MAX_MANTISSA * pow10(24)
}

/// The sum and the difference of two bounded amounts fit at their larger scale.
pub proof fn lemma_bounded_fits(a: Amount, b: Amount)
    ensures
        in_bound(a) && in_bound(b) ==> {
            &&& fits_at_scale(a.value() + b.value(), max_scale(a.scale, b.scale))
            &&& fits_at_scale(a.value() - b.value(), max_scale(a.scale, b.scale))
        },
{
    if in_bound(a) && in_bound(b) {
        let s = max_scale(a.scale, b.scale);
        lemma_pow10_monotone(24, (MAX_SCALE - s) as nat);
        let p = pow10((MAX_SCALE - s) as nat);
        let q = pow10(24);
        assert(MAX_MANTISSA * q <= MAX_MANTISSA * p) by (nonlinear_arith)
            requires
                q <= p,
        ;
    }
}

/// An exact decimal number `mantissa / 10^scale`, held as the plain parts that
/// `rust_decimal::Decimal` is made of.
#[derive(Clone, Copy, Debug)]
pub struct Amount {
    pub mantissa: i128,
    pub scale: u32,
}

/// Parts of `a.saturating_add(b)` for the decimals with the given parts.
pub uninterp spec fn saturating_sum_parts(am: i128, ascale: u32, bm: i128, bscale: u32) -> (i128, u32);

/// Parts of `a.saturating_sub(b)` for the decimals with the given parts.
pub uninterp spec fn saturating_difference_parts(am: i128, ascale: u32, bm: i128, bscale: u32) -> (
    i128,
    u32,
);

/// Whether an exact value, counted in units of 10^-28, has a representation
/// with at most `scale` fractional digits and a mantissa of at most 96 bits.
pub open spec fn fits_at_scale(v: int, scale: u32) -> bool {
    &&& scale <= MAX_SCALE
    &&& -MAX_MANTISSA * pow10((MAX_SCALE - scale) as nat) <= v
    &&& v <= MAX_MANTISSA * pow10((MAX_SCALE - scale) as nat)
}

pub open spec fn max_scale(a: u32, b: u32) -> u32 {
    if a >= b {
        a
    } else {
        b
    }
}

impl Amount {
    /// The parts describe a decimal: at most 28 fractional digits, at most 96 bits.
    pub open spec fn wf(self) -> bool {
        &&& self.scale <= MAX_SCALE
        &&& -MAX_MANTISSA <= self.mantissa <= MAX_MANTISSA
    }

    /// The exact value, counted in units of 10^-28.
    pub open spec fn value(self) -> int {
        self.mantissa * pow10((MAX_SCALE - self.scale) as nat)
    }

    pub open spec fn spec_saturating_add(self, o: Amount) -> Amount {
        let p = saturating_sum_parts(self.mantissa, self.scale, o.mantissa, o.scale);
        Amount { mantissa: p.0, scale: p.1 }
    }

    pub open spec fn spec_saturating_sub(self, o: Amount) -> Amount {
        let p = saturating_difference_parts(self.mantissa, self.scale, o.mantissa, o.scale);
        Amount { mantissa: p.0, scale: p.1 }
    }

    /// Builds an amount from its parts; `None` where they describe no decimal.
    pub fn new(mantissa: i128, scale: u32) -> (r: Option<Amount>)
        ensures
            r is Some <==> (Amount { mantissa, scale }).wf(),
            r is Some ==> r->0.mantissa == mantissa && r->0.scale == scale,
    {
        if scale <= MAX_SCALE && -MAX_MANTISSA <= mantissa && mantissa <= MAX_MANTISSA {
            Some(Amount { mantissa, scale })
        } else {
            None
        }
    }

    /// The amount zero.
    pub fn zero() -> (r: Amount)
        ensures
            r.wf(),
            r.value() == 0,
            r.mantissa == 0,
            r.scale == 0,
    {
        Amount { mantissa: 0, scale: 0 }
    }

    /// Relies on `Decimal::saturating_add`: the sum is exact and keeps at most the
    /// larger number of fractional digits wherever it fits at that scale.
    #[verifier::external_body]
    pub(crate) fn saturating_add(self, o: Amount) -> (r: Amount)
        requires
            self.wf(),
            o.wf(),
        ensures
            (r.mantissa, r.scale) == saturating_sum_parts(self.mantissa, self.scale, o.mantissa, o.scale),
            r.wf(),
            fits_at_scale(self.value() + o.value(), max_scale(self.scale, o.scale)) ==> r.value()
                == self.value() + o.value(),
    {
        let d = Decimal::from_i128_with_scale(self.mantissa, self.scale).saturating_add(
            Decimal::from_i128_with_scale(o.mantissa, o.scale),
        );
        Amount { mantissa: d.mantissa(), scale: d.scale() }
    }

    /// Relies on `Decimal::saturating_sub`: the difference is exact and keeps at most
    /// the larger number of fractional digits wherever it fits at that scale.
    #[verifier::external_body]
    pub(crate) fn saturating_sub(self, o: Amount) -> (r: Amount)
        requires
            self.wf(),
            o.wf(),
        ensures
            (r.mantissa, r.scale) == saturating_difference_parts(self.mantissa, self.scale, o.mantissa, o.scale),
            r.wf(),
            fits_at_scale(self.value() - o.value(), max_scale(self.scale, o.scale)) ==> r.value()
                == self.value() - o.value(),
    {
        let d = Decimal::from_i128_with_scale(self.mantissa, self.scale).saturating_sub(
            Decimal::from_i128_with_scale(o.mantissa, o.scale),
        );
        Amount { mantissa: d.mantissa(), scale: d.scale() }
    }

    /// Relies on `Decimal`'s `Ord`, which compares the exact values.
    #[verifier::external_body]
    pub(crate) fn at_least(self, o: Amount) -> (r: bool)
        requires
            self.wf(),
            o.wf(),
        ensures
            r == (self.value() >= o.value()),
    {
        Decimal::from_i128_with_scale(self.mantissa, self.scale) >= Decimal::from_i128_with_scale(
            o.mantissa,
            o.scale,
        )
    }
}

} // verus!
