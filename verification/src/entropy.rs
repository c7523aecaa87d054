//! Entropy accounting.
//!
//! Every generator reports an estimate of how many bits of entropy its
//! output carries. The estimate is kept in millibits (thousandths of a
//! bit) so that the strength classification and the progress-bar
//! percentage are exact integer computations. The base-2 logarithm needed
//! for the estimates is computed in fixed point by [`log2_milli`].

use vstd::prelude::*;
use vstd::arithmetic::power2::*;
use vstd::arithmetic::div_mod::lemma_div_is_ordered;

verus! {

/// Password entropy information: the estimate in millibits and a label
/// naming the code path that produced it.
pub struct EntropyInfo {
    /// Entropy in millibits (thousandths of a bit).
    pub millibits: u64,
    /// Which calculation produced the estimate (for display).
    pub source: &'static str,
}

/// Strength category thresholds, in millibits.
pub open spec fn spec_strength(millibits: u64) -> StrengthLevel {
    if millibits < 25000 {
        StrengthLevel::VeryWeak
    } else if millibits < 50000 {
        StrengthLevel::Weak
    } else if millibits < 75000 {
        StrengthLevel::Moderate
    } else if millibits < 100000 {
        StrengthLevel::Strong
    } else {
        StrengthLevel::VeryStrong
    }
}

impl EntropyInfo {
    pub fn new(millibits: u64, source: &'static str) -> (r: Self)
        ensures
            r.millibits == millibits,
            r.source == source,
    {
        Self { millibits, source }
    }

    /// Strength category based on whole entropy bits: below 25 bits is
    /// very weak, below 50 weak, below 75 moderate, below 100 strong,
    /// and everything above very strong.
    pub fn strength(&self) -> (r: StrengthLevel)
        ensures
            r == spec_strength(self.millibits),
    {
        if self.millibits < 25000 {
            StrengthLevel::VeryWeak
        } else if self.millibits < 50000 {
            StrengthLevel::Weak
        } else if self.millibits < 75000 {
            StrengthLevel::Moderate
        } else if self.millibits < 100000 {
            StrengthLevel::Strong
        } else {
            StrengthLevel::VeryStrong
        }
    }

    /// Percentage for a progress bar: the estimate as a share of 128 bits,
    /// capped at 100. In millibits that share is `millibits / 1280`.
    pub fn percentage(&self) -> (r: u8)
        ensures
            r == if self.millibits / 1280 > 100 {
                100u8
            } else {
                (self.millibits / 1280) as u8
            },
    {
        let p = self.millibits / 1280;
        if p > 100 {
            100
        } else {
            p as u8
        }
    }
}

#[derive(Debug, Clone, Copy, PartialEq, Eq, Structural)]
pub enum StrengthLevel {
    VeryWeak,
    Weak,
    Moderate,
    Strong,
    VeryStrong,
}

impl StrengthLevel {
    pub fn label(&self) -> (r: &'static str)
        ensures
            r@ == match self {
                StrengthLevel::VeryWeak => "Very Weak"@,
                StrengthLevel::Weak => "Weak"@,
                StrengthLevel::Moderate => "Moderate"@,
                StrengthLevel::Strong => "Strong"@,
                StrengthLevel::VeryStrong => "Very Strong"@,
            },
    {
        match self {
            StrengthLevel::VeryWeak => "Very Weak",
            StrengthLevel::Weak => "Weak",
            StrengthLevel::Moderate => "Moderate",
            StrengthLevel::Strong => "Strong",
            StrengthLevel::VeryStrong => "Very Strong",
        }
    }

    pub fn emoji(&self) -> (r: &'static str)
        ensures
            r@ == match self {
                StrengthLevel::VeryWeak => "💀"@,
                StrengthLevel::Weak => "😟"@,
                StrengthLevel::Moderate => "😐"@,
                StrengthLevel::Strong => "😊"@,
                StrengthLevel::VeryStrong => "🔒"@,
            },
    {
        match self {
            StrengthLevel::VeryWeak => "💀",
            StrengthLevel::Weak => "😟",
            StrengthLevel::Moderate => "😐",
            StrengthLevel::Strong => "😊",
            StrengthLevel::VeryStrong => "🔒",
        }
    }
}

/// Product of two estimates, capped at the largest representable value.
pub open spec fn spec_sat_mul(a: u64, b: u64) -> u64 {
    if a * b <= u64::MAX {
        (a * b) as u64
    } else {
        u64::MAX
    }
}

/// Multiply saturating at `u64::MAX`, for entropy totals that can never
/// meaningfully exceed it.
pub fn sat_mul(a: u64, b: u64) -> (r: u64)
    ensures
        r == spec_sat_mul(a, b),
{
    match a.checked_mul(b) {
        Some(x) => x,
        None => u64::MAX,
    }
}

/// A saturated product of positive factors is positive.
pub proof fn lemma_sat_mul_pos(a: u64, b: u64)
    requires
        a >= 1,
        b >= 1,
    ensures
        spec_sat_mul(a, b) >= 1,
{
    assert(a * b >= 1) by (nonlinear_arith)
        requires
            a >= 1,
            b >= 1,
    ;
}

/// Fixed-point base-2 logarithm of the rational `num / den`, in millibits.
///
/// The integer part is exact: `r / 1000` is the floor of the logarithm.
/// The fractional millibits are computed by repeated squaring with 13
/// binary digits of precision, which keeps the entropy estimates well
/// within a tenth of a bit of the real value for the bases this library
/// uses.
pub fn log2_milli(num: u64, den: u64) -> (r: u64)
    requires
        1 <= den,
        den <= num,
    ensures
        r < 64000,
        pow2((r / 1000) as nat) * den <= num,
        num < pow2((r / 1000 + 1) as nat) * den,
        num == den ==> r == 0,
        num >= 2 * den ==> r >= 1000,
{
    proof {
        lemma2_to64();
    }
    // Integer part: the largest k with den * 2^k <= num.
    let mut k: u64 = 0;
    let mut scaled_den: u64 = den;
    while scaled_den <= num / 2
        invariant
            1 <= den <= num,
            1 <= scaled_den,
            scaled_den == den * pow2(k as nat),
            scaled_den <= num,
            k < 64,
            num == den ==> k == 0 && scaled_den == den,
        decreases num - scaled_den,
    {
        proof {
            lemma_pow2_unfold((k + 1) as nat);
            assert(den * pow2((k + 1) as nat) == 2 * scaled_den) by (nonlinear_arith)
                requires
                    pow2((k + 1) as nat) == 2 * pow2(k as nat),
                    scaled_den == den * pow2(k as nat),
            ;
            if k + 1 >= 64 {
                lemma2_to64_rest();
                if k + 1 > 64 {
                    lemma_pow2_strictly_increases(64, (k + 1) as nat);
                }
                lemma_pow2_pos((k + 1) as nat);
                assert(den * pow2((k + 1) as nat) >= pow2((k + 1) as nat)) by (nonlinear_arith)
                    requires
                        den >= 1,
                        pow2((k + 1) as nat) > 0,
                ;
                assert(false);
            }
        }
        scaled_den = scaled_den * 2;
        k = k + 1;
    }
    proof {
        lemma_pow2_unfold((k + 1) as nat);
        assert(den * pow2((k + 1) as nat) == 2 * scaled_den) by (nonlinear_arith)
            requires
                pow2((k + 1) as nat) == 2 * pow2(k as nat),
                scaled_den == den * pow2(k as nat),
        ;
    }

    // Fractional part: f tracks num / scaled_den in [1, 2) with 20
    // fractional binary digits; squaring shifts one digit out per round.
    let wide: u128 = (num as u128) * 0x100000 / (scaled_den as u128);
    proof {
        assert((num as int) * 0x100000 / (scaled_den as int) < 0x200000) by (nonlinear_arith)
            requires
                num < 2 * (scaled_den as int),
                scaled_den >= 1,
        ;
        assert((num as int) * 0x100000 / (scaled_den as int) >= 0x100000) by (nonlinear_arith)
            requires
                num >= scaled_den as int,
                scaled_den >= 1,
        ;
        assert(num == scaled_den ==> (num as int) * 0x100000 / (scaled_den as int) == 0x100000)
            by (nonlinear_arith)
            requires
                scaled_den >= 1,
        ;
    }
    let mut f: u64 = wide as u64;
    let mut frac: u64 = 0;
    let mut round: u64 = 0;
    while round < 13
        invariant
            0x100000 <= f < 0x200000,
            round <= 13,
            frac < pow2(round as nat),
            num == den ==> f == 0x100000 && frac == 0,
        decreases 13 - round,
    {
        proof {
            lemma_pow2_unfold((round + 1) as nat);
            lemma_pow2_strictly_increases(round as nat, 13);
            lemma2_to64();
            assert(f * f < 0x200000 * 0x200000) by (nonlinear_arith)
                requires
                    f < 0x200000,
            ;
            assert(f * f >= 0x100000 * 0x100000) by (nonlinear_arith)
                requires
                    f >= 0x100000,
            ;
            lemma_div_is_ordered(0x100000int * 0x100000, (f * f) as int, 0x100000);
            lemma_div_is_ordered((f * f) as int, 0x200000int * 0x200000 - 1, 0x100000);
            assert(f == 0x100000 ==> f * f / 0x100000 == 0x100000);
        }
        let sq: u64 = (f * f) / 0x100000;
        if sq >= 0x200000 {
            f = sq / 2;
            frac = frac * 2 + 1;
        } else {
            f = sq;
            frac = frac * 2;
        }
        round = round + 1;
    }
    proof {
        lemma2_to64();
        assert(frac < 8192);
    }

    // Combine: k whole bits plus frac/8192 of a bit, in millibits.
    let frac_milli: u64 = frac * 1000 / 8192;
    proof {
        lemma_div_is_ordered((frac * 1000) as int, 8191int * 1000, 8192);
    }
    let r: u64 = k * 1000 + frac_milli;
    proof {
        assert(r / 1000 == k) by (nonlinear_arith)
            requires
                r == k * 1000 + frac_milli,
                frac_milli <= 999,
                k < 64,
        ;
        assert(pow2((r / 1000) as nat) == pow2(k as nat));
        assert(pow2(k as nat) * den == den * pow2(k as nat)) by (nonlinear_arith);
        assert(pow2((r / 1000 + 1) as nat) == pow2((k + 1) as nat));
        assert(pow2((k + 1) as nat) * den == den * pow2((k + 1) as nat)) by (nonlinear_arith);
        if num >= 2 * den && k == 0 {
            assert(scaled_den == den);
            assert(false);
        }
    }
    r
}

} // verus!
