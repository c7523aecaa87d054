//! The numeric PIN generator: uniform digits, one per position.

use vstd::prelude::*;
use crate::chars::is_digit_char;
use crate::entropy::EntropyInfo;
use crate::entropy::sat_mul;
use crate::entropy::spec_sat_mul;
use crate::entropy::lemma_sat_mul_pos;
use crate::rng::RandomSource;
use crate::text::chars_to_string;
use crate::GeneratedPassword;
use crate::PasswordGenerator;

verus! {

/// Entropy per uniformly drawn decimal digit, in millibits:
/// the base-2 logarithm of ten.
pub const DIGIT_RATE_MILLI: u64 = 3322;

pub struct PinGenerator {
    pub length: usize,
}

impl PinGenerator {
    pub fn new(length: usize) -> (r: Self)
        ensures
            r.length == length,
    {
        PinGenerator { length }
    }
}

impl PasswordGenerator for PinGenerator {
    open spec fn wf(&self) -> bool {
        true
    }

    fn generate(&self, source: &mut RandomSource) -> (out: GeneratedPassword)
        ensures
            out.value@.len() == self.length,
            forall|i: int| 0 <= i < out.value@.len() ==> is_digit_char(#[trigger] out.value@[i]),
            out.entropy.millibits == spec_sat_mul(self.length as u64, DIGIT_RATE_MILLI),
            out.entropy.source@ == "Numeric"@,
            self.length >= 1 ==> out.entropy.millibits >= 1,
    {
        let mut digits: Vec<char> = Vec::new();
        let mut i: usize = 0;
        while i < self.length
            invariant
                i <= self.length,
                digits@.len() == i as int,
                forall|j: int| 0 <= j < i ==> is_digit_char(#[trigger] digits@[j]),
            decreases self.length - i,
        {
            let d = source.below(10);
            let c = ((48 + d) as u8) as char;
            proof {
                assert(is_digit_char(c));
            }
            digits.push(c);
            i = i + 1;
        }
        let value = chars_to_string(&digits);
        let millibits = sat_mul(self.length as u64, DIGIT_RATE_MILLI);
        proof {
            assert(value@ == digits@);
            if self.length >= 1 {
                lemma_sat_mul_pos(self.length as u64, DIGIT_RATE_MILLI);
            }
        }
        GeneratedPassword { value, entropy: EntropyInfo::new(millibits, "Numeric") }
    }

    fn description(&self) -> (r: &'static str)
        ensures
            r@ == "Numeric PIN"@,
    {
        "Numeric PIN"
    }
}

} // verus!
