//! The pronounceable password generator.
//!
//! Walks the transition model to build a candidate of the requested
//! length, post-processes it (capitalisation, digit and symbol
//! insertion), and keeps only candidates that pass the pronounceability
//! check, retrying up to a hundred times. When the model cannot deliver,
//! a uniformly sampled syllable table takes over; that path cannot fail.

use vstd::prelude::*;
use crate::chars::is_consonant;
use crate::chars::is_digit_char;
use crate::chars::is_letter;
use crate::chars::is_lower_letter;
use crate::chars::is_upper_letter;
use crate::chars::is_vowel;
use crate::chars::is_ascii_vowel;
use crate::chars::raise_upper;
use crate::chars::upper;
use crate::chars::lemma_raise_upper_letter;
use crate::entropy::EntropyInfo;
use crate::entropy::sat_mul;
use crate::entropy::spec_sat_mul;
use crate::entropy::lemma_sat_mul_pos;
use crate::model::StartEntry;
use crate::model::Succ;
use crate::model::TransitionModel;
use crate::rng::RandomSource;
use crate::rng::below_index;
use crate::sampler::lemma_sum_element;
use crate::sampler::sum_weights;
use crate::sampler::weighted_pick;
use crate::text::chars_to_string;
use crate::GeneratedPassword;
use crate::PasswordGenerator;

verus! {

/// Four adjacent characters that are all vowels or all consonants,
/// counted case-insensitively.
pub open spec fn bad_window(s: Seq<char>, i: int) -> bool {
    (is_vowel(s[i]) && is_vowel(s[i + 1]) && is_vowel(s[i + 2]) && is_vowel(s[i + 3])) || (
    is_consonant(s[i]) && is_consonant(s[i + 1]) && is_consonant(s[i + 2]) && is_consonant(
        s[i + 3],
    ))
}

/// No run of more than three consecutive vowels or consonants anywhere;
/// non-letters break every run.
pub open spec fn pronounceable(s: Seq<char>) -> bool {
    forall|i: int| 0 <= i && i + 4 <= s.len() ==> !#[trigger] bad_window(s, i)
}

/// Some character of `s` is an ASCII digit.
pub open spec fn has_digit(s: Seq<char>) -> bool {
    exists|i: int| 0 <= i < s.len() && is_digit_char(#[trigger] s[i])
}

/// One of the fixed ten readable symbols.
pub open spec fn is_readable_symbol(c: char) -> bool {
    c == '!' || c == '@' || c == '#' || c == '$' || c == '%' || c == '&' || c == '*' || c == '-'
        || c == '_' || c == '+'
}

/// Some character of `s` is a readable symbol.
pub open spec fn has_symbol(s: Seq<char>) -> bool {
    exists|i: int| 0 <= i < s.len() && is_readable_symbol(#[trigger] s[i])
}

/// The start weights, in entry order.
pub open spec fn start_weight_seq(s: Seq<StartEntry>) -> Seq<u64> {
    s.map_values(|e: StartEntry| e.weight)
}

/// Per-character entropy rate of the syllable fallback, in millibits:
/// half the base-2 logarithm of the 86-entry syllable table.
pub const SYLLABLE_RATE_MILLI: u64 = 3213;

/// The second-order transition model generator with its request
/// parameters.
pub struct MarkovGenerator {
    pub model: TransitionModel,
    pub length: usize,
    pub include_digits: bool,
    pub include_symbols: bool,
    pub capitalize: bool,
}

fn start_weights(starts: &Vec<StartEntry>) -> (r: Vec<u64>)
    ensures
        r@ == start_weight_seq(starts@),
{
    let mut r: Vec<u64> = Vec::new();
    let mut i: usize = 0;
    while i < starts.len()
        invariant
            i <= starts@.len(),
            r@.len() == i as int,
            forall|j: int| 0 <= j < i ==> r@[j] == starts@[j].weight,
        decreases starts.len() - i,
    {
        r.push(starts[i].weight);
        i = i + 1;
    }
    proof {
        assert(r@ =~= start_weight_seq(starts@));
    }
    r
}

fn succ_weights(succs: &Vec<Succ>) -> (r: Vec<u64>)
    ensures
        r@.len() == succs@.len(),
        forall|j: int| 0 <= j < r@.len() ==> r@[j] == succs@[j].weight,
{
    let mut r: Vec<u64> = Vec::new();
    let mut i: usize = 0;
    while i < succs.len()
        invariant
            i <= succs@.len(),
            r@.len() == i as int,
            forall|j: int| 0 <= j < i ==> r@[j] == succs@[j].weight,
        decreases succs.len() - i,
    {
        r.push(succs[i].weight);
        i = i + 1;
    }
    r
}

fn find_row(rows: &Vec<crate::model::Row>, c0: char, c1: char) -> (r: Option<usize>)
    ensures
        match r {
            Some(i) => i < rows@.len() && rows@[i as int].c0 == c0 && rows@[i as int].c1 == c1,
            None => true,
        },
{
    let mut i: usize = 0;
    while i < rows.len()
        invariant
            i <= rows@.len(),
        decreases rows.len() - i,
    {
        if rows[i].c0 == c0 && rows[i].c1 == c1 {
            return Some(i);
        }
        i = i + 1;
    }
    None
}

/// The fixed consonant set used to pad past dead ends.
fn pad_consonant(i: usize) -> (r: char)
    requires
        i < 14,
    ensures
        is_lower_letter(r),
        is_consonant(r),
{
    if i == 0 {
        'b'
    } else if i == 1 {
        'c'
    } else if i == 2 {
        'd'
    } else if i == 3 {
        'f'
    } else if i == 4 {
        'g'
    } else if i == 5 {
        'h'
    } else if i == 6 {
        'k'
    } else if i == 7 {
        'l'
    } else if i == 8 {
        'm'
    } else if i == 9 {
        'n'
    } else if i == 10 {
        'p'
    } else if i == 11 {
        'r'
    } else if i == 12 {
        's'
    } else {
        't'
    }
}

/// The fixed five-vowel set used to pad past dead ends.
fn pad_vowel(i: usize) -> (r: char)
    requires
        i < 5,
    ensures
        is_lower_letter(r),
        is_vowel(r),
{
    if i == 0 {
        'a'
    } else if i == 1 {
        'e'
    } else if i == 2 {
        'i'
    } else if i == 3 {
        'o'
    } else {
        'u'
    }
}

/// The consonants of the 86-entry consonant-vowel syllable table.
fn syllable_consonant(i: usize) -> (r: char)
    requires
        i < 17,
    ensures
        is_lower_letter(r),
        is_consonant(r),
{
    if i == 0 {
        'b'
    } else if i == 1 {
        'c'
    } else if i == 2 {
        'd'
    } else if i == 3 {
        'f'
    } else if i == 4 {
        'g'
    } else if i == 5 {
        'h'
    } else if i == 6 {
        'j'
    } else if i == 7 {
        'k'
    } else if i == 8 {
        'l'
    } else if i == 9 {
        'm'
    } else if i == 10 {
        'n'
    } else if i == 11 {
        'p'
    } else if i == 12 {
        'r'
    } else if i == 13 {
        's'
    } else if i == 14 {
        't'
    } else if i == 15 {
        'v'
    } else {
        'z'
    }
}

/// Entry `i` of the fixed 86-entry consonant-vowel syllable table:
/// seventeen consonants crossed with the five vowels, completed by `wa`.
fn syllable_at(i: usize) -> (r: (char, char))
    requires
        i < 86,
    ensures
        is_lower_letter(r.0),
        is_lower_letter(r.1),
{
    if i == 85 {
        ('w', 'a')
    } else {
        (syllable_consonant(i / 5), pad_vowel(i % 5))
    }
}

impl MarkovGenerator {
    pub fn new(
        corpus: &Vec<char>,
        length: usize,
        include_digits: bool,
        include_symbols: bool,
        capitalize: bool,
    ) -> (r: Self)
        ensures
            r.model.wf(),
            r.model.built_from(corpus@),
            r.length == length,
            r.include_digits == include_digits,
            r.include_symbols == include_symbols,
            r.capitalize == capitalize,
    {
        let model = TransitionModel::from_corpus(corpus);
        MarkovGenerator { model, length, include_digits, include_symbols, capitalize }
    }

    /// Generate the raw lowercase candidate: sample a start context, walk
    /// the model while it has successors, then pad with alternating
    /// vowels and consonants and cut to the target length. `None` exactly
    /// when no start context can be drawn.
    pub fn generate_base(&self, source: &mut RandomSource) -> (r: Option<Vec<char>>)
        requires
            self.model.wf(),
        ensures
            match r {
                Some(v) => v@.len() == self.length && forall|i: int|
                    0 <= i < v@.len() ==> is_lower_letter(#[trigger] v@[i]),
                None => true,
            },
            self.model.starts@.len() == 0 ==> r is None,
            r is None ==> (self.model.starts@.len() == 0 || sum_weights(
                start_weight_seq(self.model.starts@),
            ) > u64::MAX),
    {
        if self.model.starts.len() == 0 {
            return None;
        }
        let weights = start_weights(&self.model.starts);
        let idx = match weighted_pick(&weights, source) {
            Some(i) => i,
            None => {
                proof {
                    // A non-empty well-formed start list cannot sum to
                    // zero, so only an overflowing total remains.
                    assert(weights@[0] == self.model.starts@[0].weight);
                    assert(self.model.starts@[0].weight >= 1);
                    lemma_sum_element(weights@, 0);
                }
                return None;
            },
        };
        let entry_c0 = self.model.starts[idx].c0;
        let entry_c1 = self.model.starts[idx].c1;
        proof {
            lemma_sum_element(weights@, idx as int);
        }
        let mut out: Vec<char> = Vec::new();
        out.push(entry_c0);
        out.push(entry_c1);

        // Markov walk: follow observed successors while they exist.
        let mut attempts: usize = 0;
        while out.len() < self.length && attempts < 100
            invariant
                2 <= out@.len(),
                forall|i: int| 0 <= i < out@.len() ==> is_lower_letter(#[trigger] out@[i]),
                self.model.wf(),
                attempts <= 100,
            ensures
                2 <= out@.len(),
                forall|i: int| 0 <= i < out@.len() ==> is_lower_letter(#[trigger] out@[i]),
            decreases self.length - out.len(),
        {
            let len = out.len();
            let c0 = out[len - 2];
            let c1 = out[len - 1];
            match find_row(&self.model.rows, c0, c1) {
                Some(ri) => {
                    let row = &self.model.rows[ri];
                    let sw = succ_weights(&row.succs);
                    match weighted_pick(&sw, source) {
                        Some(si) => {
                            out.push(row.succs[si].ch);
                            attempts = attempts + 1;
                        },
                        None => {
                            break ;
                        },
                    }
                },
                None => {
                    break ;
                },
            }
        }

        // Dead end or attempt budget: pad by alternating vowel and
        // consonant after the last character.
        while out.len() < self.length
            invariant
                1 <= out@.len(),
                forall|i: int| 0 <= i < out@.len() ==> is_lower_letter(#[trigger] out@[i]),
            decreases self.length - out.len(),
        {
            let last = out[out.len() - 1];
            if is_ascii_vowel(last) {
                let ci = below_index(source, 14);
                out.push(pad_consonant(ci));
            } else {
                let vi = below_index(source, 5);
                out.push(pad_vowel(vi));
            }
        }
        out.truncate(self.length);
        proof {
            assert(out@.len() == self.length);
        }
        Some(out)
    }

    /// Capitalise the first character if asked, then insert one digit and
    /// one symbol at random positions past the front, cutting back to the
    /// target length after each insertion.
    pub fn post_process(&self, password: Vec<char>, source: &mut RandomSource) -> (r: Vec<char>)
        requires
            password@.len() == self.length,
        ensures
            r@.len() == self.length,
            self.length >= 1 ==> r@[0] == (if self.capitalize {
                raise_upper(password@[0])
            } else {
                password@[0]
            }),
            self.include_digits && !self.include_symbols && self.length > 2 ==> has_digit(r@),
            self.include_symbols && self.length > 2 ==> has_symbol(r@),
            !self.include_digits && !self.include_symbols ==> r@ == (if self.capitalize
                && self.length >= 1 {
                password@.update(0, raise_upper(password@[0]))
            } else {
                password@
            }),
    {
        let mut chars = password;
        if self.capitalize && chars.len() > 0 {
            let c = chars[0];
            chars[0] = upper(c);
        }
        if self.include_digits && chars.len() > 2 {
            let len = chars.len();
            let pos = 1 + below_index(source, len - 1);
            let d = source.below(10);
            let digit_char = ((48 + d) as u8) as char;
            chars.insert(pos, digit_char);
            chars.truncate(self.length);
            proof {
                assert(is_digit_char(chars@[pos as int]));
            }
        }
        if self.include_symbols && chars.len() > 2 {
            let len = chars.len();
            let pos = 1 + below_index(source, len - 1);
            let si = below_index(source, 10);
            let sym = readable_symbol(si);
            chars.insert(pos, sym);
            chars.truncate(self.length);
            proof {
                assert(is_readable_symbol(chars@[pos as int]));
            }
        }
        chars
    }

    /// The readability constraint on a string.
    pub fn is_pronounceable(password: &str) -> (r: bool)
        ensures
            r == pronounceable(password@),
    {
        let chars = crate::text::string_to_chars(password);
        Self::pronounceable_chars(&chars)
    }

    /// The readability constraint: scan once, tracking the current vowel
    /// and consonant runs; any non-letter resets both. Rejects a run
    /// longer than three.
    pub fn pronounceable_chars(password: &Vec<char>) -> (r: bool)
        ensures
            r == pronounceable(password@),
    {
        let ghost sv = password@;
        let mut vrun: usize = 0;
        let mut crun: usize = 0;
        let mut i: usize = 0;
        while i < password.len()
            invariant
                sv == password@,
                i <= sv.len(),
                vrun <= 3,
                crun <= 3,
                vrun <= i,
                crun <= i,
                forall|t: int| i - vrun <= t < i ==> is_vowel(#[trigger] sv[t]),
                forall|t: int| i - crun <= t < i ==> is_consonant(#[trigger] sv[t]),
                vrun < i ==> !is_vowel(sv[i - vrun - 1]),
                crun < i ==> !is_consonant(sv[i - crun - 1]),
                forall|w: int| 0 <= w && w + 4 <= i ==> !#[trigger] bad_window(sv, w),
            decreases password.len() - i,
        {
            let c = password[i];
            let new_vrun: usize;
            let new_crun: usize;
            if !crate::chars::letter(c) {
                proof {
                    assert(!is_vowel(sv[i as int]));
                    assert(!is_consonant(sv[i as int]));
                }
                new_vrun = 0;
                new_crun = 0;
            } else if is_ascii_vowel(c) {
                if vrun + 1 > 3 {
                    proof {
                        assert(is_vowel(sv[i - 3]) && is_vowel(sv[i - 2]) && is_vowel(sv[i - 1])
                            && is_vowel(sv[i as int]));
                        assert(bad_window(sv, i - 3));
                    }
                    return false;
                }
                new_vrun = vrun + 1;
                new_crun = 0;
            } else {
                if crun + 1 > 3 {
                    proof {
                        assert(is_consonant(sv[i - 3]) && is_consonant(sv[i - 2]) && is_consonant(
                            sv[i - 1],
                        ) && is_consonant(sv[i as int]));
                        assert(bad_window(sv, i - 3));
                    }
                    return false;
                }
                new_crun = crun + 1;
                new_vrun = 0;
            }
            proof {
                assert forall|w: int| 0 <= w && w + 4 <= i + 1 implies !#[trigger] bad_window(
                    sv,
                    w,
                ) by {
                    if w + 4 == i + 1 {
                        // The one new window ends at the character just
                        // read; the run bookkeeping rules it out.
                        if is_vowel(sv[i as int]) {
                            assert(!is_consonant(sv[i as int]));
                            assert(new_vrun == vrun + 1 && new_vrun <= 3);
                            assert(i - vrun - 1 >= w);
                            assert(vrun < i ==> !is_vowel(sv[i - vrun - 1]));
                            assert(vrun >= i ==> i <= 2);
                        } else if is_consonant(sv[i as int]) {
                            assert(new_crun == crun + 1 && new_crun <= 3);
                            assert(i - crun - 1 >= w);
                            assert(crun < i ==> !is_consonant(sv[i - crun - 1]));
                            assert(crun >= i ==> i <= 2);
                        } else {
                        }
                    }
                }
            }
            vrun = new_vrun;
            crun = new_crun;
            i = i + 1;
        }
        true
    }
}

/// The fixed ten-character readable symbol set.
fn readable_symbol(i: usize) -> (r: char)
    requires
        i < 10,
    ensures
        is_readable_symbol(r),
        !is_letter(r),
        !is_digit_char(r),
{
    if i == 0 {
        '!'
    } else if i == 1 {
        '@'
    } else if i == 2 {
        '#'
    } else if i == 3 {
        '$'
    } else if i == 4 {
        '%'
    } else if i == 5 {
        '&'
    } else if i == 6 {
        '*'
    } else if i == 7 {
        '-'
    } else if i == 8 {
        '_'
    } else {
        '+'
    }
}

/// Uniformly drawn two-character syllables, concatenated and cut to the
/// requested length.
fn syllable_string(length: usize, source: &mut RandomSource) -> (r: Vec<char>)
    ensures
        r@.len() == length,
        forall|i: int| 0 <= i < r@.len() ==> is_lower_letter(#[trigger] r@[i]),
{
    let mut out: Vec<char> = Vec::new();
    while out.len() < length
        invariant
            out@.len() <= length + 1,
            forall|i: int| 0 <= i < out@.len() ==> is_lower_letter(#[trigger] out@[i]),
        decreases length + 1 - out.len(),
    {
        let si = below_index(source, 86);
        let (c, v) = syllable_at(si);
        out.push(c);
        out.push(v);
    }
    out.truncate(length);
    out
}

impl PasswordGenerator for MarkovGenerator {
    open spec fn wf(&self) -> bool {
        self.model.wf()
    }

    fn generate(&self, source: &mut RandomSource) -> (out: GeneratedPassword)
        ensures
            out.value@.len() == self.length,
            out.entropy.source@ == "Markov pronounceable"@ || out.entropy.source@
                == "Syllable fallback"@,
            out.entropy.source@ == "Markov pronounceable"@ ==> pronounceable(out.value@)
                && out.entropy.millibits == spec_sat_mul(
                self.length as u64,
                self.model.branch_millibits,
            ),
            out.entropy.source@ == "Syllable fallback"@ ==> out.entropy.millibits == spec_sat_mul(
                self.length as u64,
                SYLLABLE_RATE_MILLI,
            ),
            self.model.starts@.len() == 0 ==> out.entropy.source@ == "Syllable fallback"@,
            self.capitalize && self.length >= 1 ==> is_upper_letter(out.value@[0]),
            self.include_digits && !self.include_symbols && self.length > 2 ==> has_digit(
                out.value@,
            ),
            self.include_symbols && self.length > 2 ==> has_symbol(out.value@),
            self.length >= 1 && (self.model.branch_num >= 2 * self.model.branch_den
                || out.entropy.source@ == "Syllable fallback"@) ==> out.entropy.millibits >= 1,
    {
        proof {
            reveal_strlit("Markov pronounceable");
            reveal_strlit("Syllable fallback");
        }
        let mut attempt: usize = 0;
        while attempt < 100
            invariant
                self.model.wf(),
                attempt <= 100,
            decreases 100 - attempt,
        {
            match self.generate_base(source) {
                Some(base) => {
                    let pw = self.post_process(base, source);
                    if Self::pronounceable_chars(&pw) {
                        let value = chars_to_string(&pw);
                        let millibits = sat_mul(self.length as u64, self.model.branch_millibits);
                        proof {
                            reveal_strlit("Markov pronounceable");
                            reveal_strlit("Syllable fallback");
                            assert("Markov pronounceable"@.len() == 20);
                            assert("Syllable fallback"@.len() == 17);
                            assert("Markov pronounceable"@.len() == 20);
            assert("Syllable fallback"@.len() == 17);
            assert(!("Markov pronounceable"@ == "Syllable fallback"@));
                            assert(value@ == pw@);
                            if self.capitalize && self.length >= 1 {
                                lemma_raise_upper_letter(base@[0]);
                            }
                            if self.length >= 1 && self.model.branch_num >= 2
                                * self.model.branch_den {
                                lemma_sat_mul_pos(self.length as u64, self.model.branch_millibits);
                            }
                            if self.include_digits && !self.include_symbols && self.length > 2 {
                                assert(has_digit(value@));
                            }
                            if self.include_symbols && self.length > 2 {
                                assert(has_symbol(value@));
                            }
                        }
                        return GeneratedPassword {
                            value,
                            entropy: EntropyInfo::new(millibits, "Markov pronounceable"),
                        };
                    }
                },
                None => {},
            }
            attempt = attempt + 1;
        }

        // Fallback: syllable concatenation, post-processed the same way,
        // never re-validated and never failing.
        let base = syllable_string(self.length, source);
        let pw = self.post_process(base, source);
        let value = chars_to_string(&pw);
        let millibits = sat_mul(self.length as u64, SYLLABLE_RATE_MILLI);
        proof {
            reveal_strlit("Markov pronounceable");
            reveal_strlit("Syllable fallback");
            assert("Markov pronounceable"@.len() == 20);
            assert("Syllable fallback"@.len() == 17);
            assert(!("Markov pronounceable"@ == "Syllable fallback"@));
            assert(value@ == pw@);
            if self.capitalize && self.length >= 1 {
                lemma_raise_upper_letter(base@[0]);
            }
            if self.length >= 1 {
                lemma_sat_mul_pos(self.length as u64, SYLLABLE_RATE_MILLI);
            }
            if self.include_digits && !self.include_symbols && self.length > 2 {
                assert(has_digit(value@));
            }
            if self.include_symbols && self.length > 2 {
                assert(has_symbol(value@));
            }
        }
        GeneratedPassword { value, entropy: EntropyInfo::new(millibits, "Syllable fallback") }
    }

    fn description(&self) -> (r: &'static str)
        ensures
            r@ == "Pronounceable (Markov chain)"@,
    {
        "Pronounceable (Markov chain)"
    }
}

} // verus!
