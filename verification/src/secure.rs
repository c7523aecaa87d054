//! The uniform-charset random generator: every character drawn uniformly
//! from a fixed repertoire chosen by the request.

use vstd::prelude::*;
use crate::chars::is_digit_char;
use crate::chars::is_letter;
use crate::cli::CharSet;
use crate::entropy::EntropyInfo;
use crate::entropy::log2_milli;
use crate::entropy::sat_mul;
use crate::entropy::spec_sat_mul;
use crate::entropy::lemma_sat_mul_pos;
use crate::rng::RandomSource;
use crate::rng::below_index;
use crate::text::chars_to_string;
use crate::GeneratedPassword;
use crate::PasswordGenerator;
use vstd::arithmetic::power2::pow2;

verus! {

/// The five characters that are easy to misread and can be excluded.
pub open spec fn is_ambiguous(c: char) -> bool {
    c == '0' || c == 'O' || c == '1' || c == 'l' || c == 'I'
}

/// Membership in the repertoire a request names. The symbol repertoire is
/// drawn from the printable non-alphanumeric ASCII characters.
pub open spec fn in_charset(cs: CharSet, c: char) -> bool {
    match cs {
        CharSet::Alpha => is_letter(c),
        CharSet::Alphanumeric => is_letter(c) || is_digit_char(c),
        CharSet::AlphanumericSymbols => 33 <= c as u32 <= 126,
        CharSet::All => 32 <= c as u32 <= 126,
    }
}

/// The sequence of characters with codes `lo ..= hi`.
pub open spec fn range_chars(lo: u8, hi: u8) -> Seq<char> {
    Seq::new((hi - lo + 1) as nat, |k: int| ((lo + k) as u8) as char)
}

/// The fixed symbol repertoire of the combined charset, in order.
pub open spec fn symbols_seq() -> Seq<char> {
    seq!['!', '@', '#', '$', '%', '^', '&', '*', '(', ')', '-', '_', '=', '+', '[', ']', '{', '}',
        '|', ';', ':', ',', '.', '<', '>', '?']
}

/// The full repertoire of a request, before any exclusion.
pub open spec fn spec_base_charset(cs: CharSet) -> Seq<char> {
    match cs {
        CharSet::Alpha => range_chars(97, 122) + range_chars(65, 90),
        CharSet::Alphanumeric => range_chars(97, 122) + range_chars(65, 90) + range_chars(48, 57),
        CharSet::AlphanumericSymbols => range_chars(97, 122) + range_chars(65, 90) + range_chars(
            48,
            57,
        ) + symbols_seq(),
        CharSet::All => range_chars(32, 126),
    }
}

/// The repertoire with the five easily misread characters dropped.
pub open spec fn spec_keep(s: Seq<char>) -> Seq<char>
    decreases s.len(),
{
    if s.len() == 0 {
        Seq::empty()
    } else {
        let rest = spec_keep(s.drop_last());
        if is_ambiguous(s.last()) {
            rest
        } else {
            rest.push(s.last())
        }
    }
}

/// The repertoire a request yields.
pub open spec fn spec_charset(cs: CharSet, exclude_ambiguous: bool) -> Seq<char> {
    if exclude_ambiguous {
        spec_keep(spec_base_charset(cs))
    } else {
        spec_base_charset(cs)
    }
}

/// Append the characters with codes `lo ..= hi`.
fn push_range(v: &mut Vec<char>, lo: u8, hi: u8)
    requires
        lo <= hi,
        hi <= 126,
    ensures
        final(v)@ == old(v)@ + range_chars(lo, hi),
{
    let ghost v0 = v@;
    let mut b: u8 = lo;
    while b <= hi
        invariant
            v@ == v0 + range_chars(lo, hi).take(b - lo),
            lo <= b <= hi + 1,
            hi <= 126,
        decreases hi + 1 - b,
    {
        v.push(b as char);
        proof {
            assert(v@ =~= v0 + range_chars(lo, hi).take(b + 1 - lo));
        }
        b = b + 1;
    }
    proof {
        assert(range_chars(lo, hi).take(hi + 1 - lo) =~= range_chars(lo, hi));
        assert(v@ =~= v0 + range_chars(lo, hi));
    }
}

pub struct SecureGenerator {
    pub length: usize,
    pub charset: Vec<char>,
    pub charset_millibits: u64,
}

impl SecureGenerator {
    /// The repertoire is non-trivial and the stored per-character rate is
    /// its base-2 logarithm in millibits.
    pub open spec fn charset_wf(self) -> bool {
        &&& self.charset@.len() >= 2
        &&& self.charset_millibits >= 1000
        &&& self.charset_millibits < 64000
        &&& pow2((self.charset_millibits / 1000) as nat) <= self.charset@.len()
        &&& self.charset@.len() < pow2((self.charset_millibits / 1000 + 1) as nat)
    }

    /// Assemble the repertoire for a request, optionally dropping the
    /// five easily misread characters, and fix its entropy rate.
    pub fn new(length: usize, charset_type: &CharSet, exclude_ambiguous: bool) -> (r: Self)
        ensures
            r.length == length,
            r.charset_wf(),
            r.charset@ == spec_charset(*charset_type, exclude_ambiguous),
            forall|i: int|
                0 <= i < r.charset@.len() ==> in_charset(*charset_type, #[trigger] r.charset@[i]),
            exclude_ambiguous ==> forall|i: int|
                0 <= i < r.charset@.len() ==> !is_ambiguous(#[trigger] r.charset@[i]),
    {
        let mut base: Vec<char> = Vec::new();
        match charset_type {
            CharSet::Alpha => {
                push_range(&mut base, 97, 122);
                push_range(&mut base, 65, 90);
                proof {
                    assert(base@[0] == 'a' && base@[1] == 'b');
                    assert(base@ =~= spec_base_charset(*charset_type));
                }
            },
            CharSet::Alphanumeric => {
                push_range(&mut base, 97, 122);
                push_range(&mut base, 65, 90);
                push_range(&mut base, 48, 57);
                proof {
                    assert(base@[0] == 'a' && base@[1] == 'b');
                    assert(base@ =~= spec_base_charset(*charset_type));
                }
            },
            CharSet::AlphanumericSymbols => {
                push_range(&mut base, 97, 122);
                push_range(&mut base, 65, 90);
                push_range(&mut base, 48, 57);
                push_symbols(&mut base);
                proof {
                    assert(base@[0] == 'a' && base@[1] == 'b');
                    assert(base@ =~= spec_base_charset(*charset_type));
                }
            },
            CharSet::All => {
                push_range(&mut base, 32, 126);
                proof {
                    assert(base@[65] == 'a' && base@[66] == 'b');
                    assert(base@ =~= spec_base_charset(*charset_type));
                }
            },
        }
        proof {
            assert(base@.contains('a'));
            assert(base@.contains('b'));
            assert(base@ == spec_base_charset(*charset_type));
            assert forall|i: int|
                0 <= i < base@.len() implies in_charset(*charset_type, #[trigger] base@[i]) by {
            }
        }

        let charset: Vec<char>;
        if exclude_ambiguous {
            let mut kept: Vec<char> = Vec::new();
            let mut i: usize = 0;
            while i < base.len()
                invariant
                    i <= base@.len(),
                    kept@ == spec_keep(base@.take(i as int)),
                    forall|j: int|
                        0 <= j < kept@.len() ==> in_charset(*charset_type, #[trigger] kept@[j])
                            && !is_ambiguous(kept@[j]),
                    forall|j: int|
                        0 <= j < i && !is_ambiguous(#[trigger] base@[j]) ==> kept@.contains(
                            base@[j],
                        ),
                    forall|i2: int|
                        0 <= i2 < base@.len() ==> in_charset(*charset_type, #[trigger] base@[i2]),
                decreases base.len() - i,
            {
                proof {
                    assert(base@.take(i + 1).drop_last() =~= base@.take(i as int));
                    assert(base@.take(i + 1).last() == base@[i as int]);
                }
                let c = base[i];
                if !(c == '0' || c == 'O' || c == '1' || c == 'l' || c == 'I') {
                    let ghost kept0 = kept@;
                    kept.push(c);
                    proof {
                        assert forall|j: int|
                            0 <= j < i + 1 && !is_ambiguous(#[trigger] base@[j]) implies kept@
                            .contains(base@[j]) by {
                            if j < i {
                                let k = choose|k: int|
                                    0 <= k < kept0.len() && kept0[k] == base@[j];
                                assert(kept@[k] == base@[j]);
                            } else {
                                assert(kept@[kept0.len() as int] == base@[j]);
                            }
                        }
                    }
                }
                i = i + 1;
            }
            proof {
                assert(base@.take(base@.len() as int) =~= base@);
                assert(kept@ == spec_keep(base@));
                assert(!is_ambiguous('a') && !is_ambiguous('b'));
                let ja = choose|k: int| 0 <= k < base@.len() && base@[k] == 'a';
                let jb = choose|k: int| 0 <= k < base@.len() && base@[k] == 'b';
                assert(kept@.contains(base@[ja]));
                assert(kept@.contains(base@[jb]));
                assert(kept@.contains('a'));
                assert(kept@.contains('b'));
                let ka = choose|k: int| 0 <= k < kept@.len() && kept@[k] == 'a';
                let kb = choose|k: int| 0 <= k < kept@.len() && kept@[k] == 'b';
                assert(ka != kb);
                assert(kept@.len() >= 2);
            }
            charset = kept;
        } else {
            charset = base;
        }
        let n = charset.len();
        let charset_millibits = log2_milli(n as u64, 1);
        proof {
            assert(pow2(((charset_millibits / 1000) as u64 + 1) as nat) == pow2(
                (charset_millibits / 1000 + 1) as nat,
            ));
        }
        SecureGenerator { length, charset, charset_millibits }
    }
}

/// One of the 26 symbols of the combined repertoire, all printable
/// non-blank ASCII.
fn charset_symbol(i: usize) -> (r: char)
    requires
        i < 26,
    ensures
        r == symbols_seq()[i as int],
        33 <= r as u32 <= 126,
{
    if i == 0 {
        '!'
    } else if i == 1 {
        '@'
    } else if i == 2 {
        '#'
    } else if i == 3 {
        '$'
    } else if i == 4 {
        '%'
    } else if i == 5 {
        '^'
    } else if i == 6 {
        '&'
    } else if i == 7 {
        '*'
    } else if i == 8 {
        '('
    } else if i == 9 {
        ')'
    } else if i == 10 {
        '-'
    } else if i == 11 {
        '_'
    } else if i == 12 {
        '='
    } else if i == 13 {
        '+'
    } else if i == 14 {
        '['
    } else if i == 15 {
        ']'
    } else if i == 16 {
        '{'
    } else if i == 17 {
        '}'
    } else if i == 18 {
        '|'
    } else if i == 19 {
        ';'
    } else if i == 20 {
        ':'
    } else if i == 21 {
        ','
    } else if i == 22 {
        '.'
    } else if i == 23 {
        '<'
    } else {
        if i == 24 {
            '>'
        } else {
            '?'
        }
    }
}

/// Append the fixed symbol repertoire of the combined charset.
fn push_symbols(v: &mut Vec<char>)
    ensures
        final(v)@ == old(v)@ + symbols_seq(),
{
    let ghost v0 = v@;
    let mut i: usize = 0;
    while i < 26
        invariant
            i <= 26,
            v@ == v0 + symbols_seq().take(i as int),
        decreases 26 - i,
    {
        let c = charset_symbol(i);
        v.push(c);
        proof {
            assert(v@ =~= v0 + symbols_seq().take(i + 1));
        }
        i = i + 1;
    }
    proof {
        assert(symbols_seq().take(26) =~= symbols_seq());
    }
}

impl PasswordGenerator for SecureGenerator {
    open spec fn wf(&self) -> bool {
        self.charset_wf()
    }

    fn generate(&self, source: &mut RandomSource) -> (out: GeneratedPassword)
        ensures
            out.value@.len() == self.length,
            forall|i: int|
                0 <= i < out.value@.len() ==> self.charset@.contains(#[trigger] out.value@[i]),
            out.entropy.millibits == spec_sat_mul(self.length as u64, self.charset_millibits),
            out.entropy.source@ == "Random"@,
            self.length >= 1 ==> out.entropy.millibits >= 1,
    {
        let mut picked: Vec<char> = Vec::new();
        let mut i: usize = 0;
        while i < self.length
            invariant
                i <= self.length,
                picked@.len() == i as int,
                self.charset_wf(),
                forall|j: int| 0 <= j < i ==> self.charset@.contains(#[trigger] picked@[j]),
            decreases self.length - i,
        {
            let idx = below_index(source, self.charset.len());
            let c = self.charset[idx];
            proof {
                assert(self.charset@.contains(c));
            }
            picked.push(c);
            i = i + 1;
        }
        let value = chars_to_string(&picked);
        let millibits = sat_mul(self.length as u64, self.charset_millibits);
        proof {
            assert(value@ == picked@);
            if self.length >= 1 {
                lemma_sat_mul_pos(self.length as u64, self.charset_millibits);
            }
        }
        GeneratedPassword { value, entropy: EntropyInfo::new(millibits, "Random") }
    }

    fn description(&self) -> (r: &'static str)
        ensures
            r@ == "Secure random"@,
    {
        "Secure random"
    }
}

} // verus!
