//! Password generation library.
//!
//! The centre of the crate is a second-order character transition model
//! trained on a word corpus, used to generate pronounceable passwords with
//! weighted random sampling, a readability check, and a syllable-table
//! fallback that cannot fail. Around it stand three simpler generators
//! (uniform charset, diceware passphrase, numeric PIN) and an entropy
//! accounting type shared by all of them.

use vstd::prelude::*;

pub mod chars;
pub mod cli;
pub mod display;
pub mod entropy;
pub mod corpus;
pub mod markov;
pub mod pin;
pub mod secure;
pub mod model;
pub mod passphrase;
pub mod rng;
pub mod sampler;
pub mod text;

pub use entropy::EntropyInfo;
pub use entropy::StrengthLevel;
pub use rng::RandomSource;

verus! {

/// Result of one password generation: the value itself and an estimate of
/// its entropy. The value is sensitive; clear it once it is no longer
/// needed.
pub struct GeneratedPassword {
    pub value: String,
    pub entropy: EntropyInfo,
}

impl GeneratedPassword {
    /// Wipe the password value from memory, leaving it empty.
    pub fn clear(&mut self)
        ensures
            final(self).value@ == Seq::<char>::empty(),
            final(self).entropy == old(self).entropy,
    {
        wipe(&mut self.value);
    }
}

/// The capability every generator offers: produce one password from a
/// supplied randomness source, and describe itself.
pub trait PasswordGenerator {
    /// The generator's own readiness condition; constructors establish
    /// it.
    spec fn wf(&self) -> bool;

    /// Generate a single password, drawing from `source`.
    fn generate(&self, source: &mut rng::RandomSource) -> (out: GeneratedPassword)
        requires
            self.wf(),
    ;

    /// Human-readable description of this generator type.
    fn description(&self) -> (r: &'static str);
}

/// Relies on `zeroize::Zeroize` for `String`: overwrites the backing
/// memory with zeroes and leaves the string empty, so a password does not
/// linger in memory after release.
#[verifier::external_body]
pub(crate) fn wipe(s: &mut String)
    ensures
        final(s)@ == Seq::<char>::empty(),
{
    zeroize::Zeroize::zeroize(s);
}

} // verus!
