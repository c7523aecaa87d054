//! The diceware passphrase generator: uniformly chosen words from a fixed
//! word list, optionally mutated (leet substitutions, truncation or a
//! doubled character) and capitalised, joined by a separator.

use vstd::prelude::*;
use crate::chars::fold_lower;
use crate::chars::is_letter;
use crate::chars::letter;
use crate::chars::raise_upper;
use crate::chars::upper;
use crate::corpus::corpus_raw_words;
use crate::corpus::raw_words;
use crate::corpus::spec_split;
use crate::entropy::EntropyInfo;
use crate::entropy::sat_mul;
use crate::entropy::spec_sat_mul;
use crate::entropy::lemma_sat_mul_pos;
use crate::rng::RandomSource;
use crate::rng::below_index;
use crate::text::chars_to_string;
use crate::text::copy_chars;
use crate::text::string_to_chars;
use crate::GeneratedPassword;
use crate::PasswordGenerator;

verus! {

/// Entropy per uniformly chosen word of the standard 7776-entry list, in
/// millibits: the base-2 logarithm of 7776.
pub const WORD_RATE_MILLI: u64 = 12925;

/// Conservative extra entropy credited per word when mutation is on, in
/// millibits.
pub const MUTATION_BONUS_MILLI: u64 = 2000;

/// Millibits credited per word: the list rate, plus the mutation bonus
/// when mutation is on.
pub open spec fn spec_word_rate(mutate: bool) -> u64 {
    if mutate {
        (WORD_RATE_MILLI + MUTATION_BONUS_MILLI) as u64
    } else {
        WORD_RATE_MILLI
    }
}

/// The word with its first character capitalised.
pub open spec fn cap_first(s: Seq<char>) -> Seq<char> {
    if s.len() == 0 {
        s
    } else {
        s.update(0, raise_upper(s[0]))
    }
}

/// Leet-speak substitution for a single character, keyed on its folded
/// form; characters without a substitution are unchanged.
pub open spec fn leet_of(c: char) -> char {
    if fold_lower(c) == 'a' {
        '4'
    } else if fold_lower(c) == 'e' {
        '3'
    } else if fold_lower(c) == 'i' {
        '1'
    } else if fold_lower(c) == 'o' {
        '0'
    } else if fold_lower(c) == 's' {
        '5'
    } else if fold_lower(c) == 't' {
        '7'
    } else if fold_lower(c) == 'b' {
        '8'
    } else if fold_lower(c) == 'g' {
        '9'
    } else {
        c
    }
}

/// What one round of random word mutation may produce: the word itself,
/// a leet substitution on some characters, a truncation to at least three
/// characters, or one doubled character.
pub open spec fn is_mutation(w: Seq<char>, r: Seq<char>) -> bool {
    ||| r == w
    ||| (r.len() == w.len() && forall|i: int|
        0 <= i < r.len() ==> #[trigger] r[i] == w[i] || r[i] == leet_of(w[i]))
    ||| (3 <= r.len() < w.len() && r == w.take(r.len() as int))
    ||| (r.len() == w.len() + 1 && exists|p: int|
        0 <= p < w.len() && r == #[trigger] w.insert(p, w[p]))
}

/// The word after the optional mutation round: a random mutation when
/// mutation is on, the word itself otherwise.
pub open spec fn mutation_step(w: Seq<char>, mutate: bool, m: Seq<char>) -> bool {
    if mutate {
        is_mutation(w, m)
    } else {
        m == w
    }
}

/// `part` is how the word `w` can appear in the passphrase.
pub open spec fn rendered_from(w: Seq<char>, capitalize: bool, mutate: bool, part: Seq<char>) -> bool {
    exists|m: Seq<char>|
        #[trigger] mutation_step(w, mutate, m) && part == if capitalize {
            cap_first(m)
        } else {
            m
        }
}

/// How one chosen word appears in the passphrase: some list word, mutated
/// when mutation is on, capitalised when capitalisation is on.
pub open spec fn is_rendered(
    words: Seq<Seq<char>>,
    capitalize: bool,
    mutate: bool,
    part: Seq<char>,
) -> bool {
    exists|i: int|
        0 <= i < words.len() && rendered_from(#[trigger] words[i], capitalize, mutate, part)
}

/// The parts joined with the separator between them.
pub open spec fn join_with(parts: Seq<Seq<char>>, sep: Seq<char>) -> Seq<char>
    decreases parts.len(),
{
    if parts.len() == 0 {
        Seq::empty()
    } else if parts.len() == 1 {
        parts[0]
    } else {
        join_with(parts.drop_last(), sep) + sep + parts.last()
    }
}

/// The views of a list of words.
pub open spec fn word_views(ws: Seq<Vec<char>>) -> Seq<Seq<char>> {
    ws.map_values(|v: Vec<char>| v@)
}

pub struct PassphraseGenerator {
    pub words: Vec<Vec<char>>,
    pub word_count: usize,
    pub separator: String,
    pub capitalize: bool,
    pub mutate: bool,
}

impl PassphraseGenerator {
    /// Parse the word-list corpus (the second field of every two-field
    /// line) and keep the request parameters.
    pub fn new(
        corpus: &Vec<char>,
        word_count: usize,
        separator: String,
        capitalize: bool,
        mutate: bool,
    ) -> (r: Self)
        ensures
            r.word_count == word_count,
            r.separator == separator,
            r.capitalize == capitalize,
            r.mutate == mutate,
            word_views(r.words@).len() == raw_words(spec_split(corpus@)).len(),
            forall|i: int|
                0 <= i < r.words@.len() ==> word_views(r.words@)[i] == raw_words(
                    spec_split(corpus@),
                )[i],
    {
        let words = corpus_raw_words(corpus);
        PassphraseGenerator { words, word_count, separator, capitalize, mutate }
    }

    /// Capitalise the first character of a word.
    pub fn capitalize_word(word: &str) -> (r: String)
        ensures
            r@ == cap_first(word@),
    {
        let mut chars = string_to_chars(word);
        if chars.len() > 0 {
            let c = chars[0];
            chars[0] = upper(c);
        }
        chars_to_string(&chars)
    }

    /// Leet-speak substitution for a single character.
    pub fn leetify(c: char) -> (r: char)
        ensures
            r == leet_of(c),
    {
        let f = crate::chars::lower(c);
        if f == 'a' {
            '4'
        } else if f == 'e' {
            '3'
        } else if f == 'i' {
            '1'
        } else if f == 'o' {
            '0'
        } else if f == 's' {
            '5'
        } else if f == 't' {
            '7'
        } else if f == 'b' {
            '8'
        } else if f == 'g' {
            '9'
        } else {
            c
        }
    }
}

/// Substituted characters have no further substitution.
proof fn lemma_leet_idempotent(c: char)
    ensures
        leet_of(leet_of(c)) == leet_of(c),
{
}

/// One round of random mutation: leet substitutions on one or two
/// positions, a truncation, a doubled character, or nothing.
fn mutate_word(word: &Vec<char>, source: &mut RandomSource) -> (r: Vec<char>)
    ensures
        is_mutation(word@, r@),
{
    let len = word.len();
    let mut result = copy_chars(word);
    if len < 3 {
        return result;
    }
    let mutation_type = source.below(100);
    if mutation_type < 40 {
        let num_leet = 1 + source.below(2);
        let mut t: u64 = 0;
        while t < num_leet
            invariant
                result@.len() == word@.len(),
                forall|i: int|
                    0 <= i < result@.len() ==> #[trigger] result@[i] == word@[i] || result@[i]
                        == leet_of(word@[i]),
                word@.len() >= 3,
            decreases num_leet - t,
        {
            let pos = below_index(source, result.len());
            let c = result[pos];
            let lc = PassphraseGenerator::leetify(c);
            result[pos] = lc;
            proof {
                lemma_leet_idempotent(word@[pos as int]);
            }
            t = t + 1;
        }
        proof {
            assert(is_mutation(word@, result@));
        }
        result
    } else if mutation_type < 70 && len > 4 {
        let new_len = 3 + below_index(source, len - 3);
        result.truncate(new_len);
        proof {
            assert(result@ == word@.take(new_len as int));
        }
        result
    } else if mutation_type < 85 {
        let pos = below_index(source, len);
        let c = result[pos];
        if letter(c) {
            result.insert(pos, c);
            proof {
                assert(result@ == word@.insert(pos as int, word@[pos as int]));
                assert(is_mutation(word@, result@));
            }
        }
        result
    } else {
        result
    }
}

impl PasswordGenerator for PassphraseGenerator {
    /// A passphrase can only be generated from a non-empty word list.
    open spec fn wf(&self) -> bool {
        self.words@.len() >= 1
    }

    fn generate(&self, source: &mut RandomSource) -> (out: GeneratedPassword)
        ensures
            out.entropy.source@ == "Diceware"@,
            out.entropy.millibits == spec_sat_mul(self.word_count as u64, spec_word_rate(self.mutate)),
            self.word_count >= 1 ==> out.entropy.millibits >= 1,
            exists|parts: Seq<Seq<char>>|
                {
                    &&& parts.len() == self.word_count
                    &&& forall|j: int|
                        0 <= j < parts.len() ==> is_rendered(
                            word_views(self.words@),
                            self.capitalize,
                            self.mutate,
                            #[trigger] parts[j],
                        )
                    &&& out.value@ == join_with(parts, self.separator@)
                },
    {
        let sep_chars = string_to_chars(self.separator.as_str());
        let mut acc: Vec<char> = Vec::new();
        let ghost mut gparts: Seq<Seq<char>> = Seq::empty();
        let mut k: usize = 0;
        while k < self.word_count
            invariant
                k <= self.word_count,
                self.words@.len() >= 1,
                sep_chars@ == self.separator@,
                gparts.len() == k as int,
                forall|j: int|
                    0 <= j < gparts.len() ==> is_rendered(
                        word_views(self.words@),
                        self.capitalize,
                        self.mutate,
                        #[trigger] gparts[j],
                    ),
                acc@ == join_with(gparts, self.separator@),
            decreases self.word_count - k,
        {
            let idx = below_index(source, self.words.len());
            let word = &self.words[idx];
            let m: Vec<char> = if self.mutate {
                mutate_word(word, source)
            } else {
                copy_chars(word)
            };
            let ghost m_view = m@;
            let rendered: Vec<char>;
            if self.capitalize {
                let mut capped = m;
                if capped.len() > 0 {
                    let c = capped[0];
                    capped[0] = upper(c);
                }
                rendered = capped;
            } else {
                rendered = m;
            }
            proof {
                assert(word_views(self.words@)[idx as int] == word@);
                assert(mutation_step(word@, self.mutate, m_view));
                assert(rendered_from(word@, self.capitalize, self.mutate, rendered@));
                assert(is_rendered(
                    word_views(self.words@),
                    self.capitalize,
                    self.mutate,
                    rendered@,
                ));
            }
            if k > 0 {
                let mut si: usize = 0;
                let ghost acc0 = acc@;
                while si < sep_chars.len()
                    invariant
                        si <= sep_chars@.len(),
                        acc@ == acc0 + sep_chars@.take(si as int),
                    decreases sep_chars.len() - si,
                {
                    acc.push(sep_chars[si]);
                    proof {
                        assert(acc@ =~= acc0 + sep_chars@.take(si + 1));
                    }
                    si = si + 1;
                }
                proof {
                    assert(sep_chars@.take(sep_chars@.len() as int) =~= sep_chars@);
                }
            }
            let mut ri: usize = 0;
            let ghost acc1 = acc@;
            while ri < rendered.len()
                invariant
                    ri <= rendered@.len(),
                    acc@ == acc1 + rendered@.take(ri as int),
                decreases rendered.len() - ri,
            {
                acc.push(rendered[ri]);
                proof {
                    assert(acc@ =~= acc1 + rendered@.take(ri + 1));
                }
                ri = ri + 1;
            }
            proof {
                assert(rendered@.take(rendered@.len() as int) =~= rendered@);
                let prev = gparts;
                gparts = gparts.push(rendered@);
                assert(gparts.drop_last() =~= prev);
                assert(gparts.last() == rendered@);
                if k == 0 {
                    assert(gparts.len() == 1);
                    assert(join_with(gparts, self.separator@) == gparts[0]);
                    assert(acc@ =~= rendered@);
                } else {
                    assert(join_with(gparts, self.separator@) == join_with(
                        prev,
                        self.separator@,
                    ) + self.separator@ + rendered@);
                    assert(acc@ =~= join_with(prev, self.separator@) + self.separator@
                        + rendered@);
                }
                assert forall|j: int|
                    0 <= j < gparts.len() implies is_rendered(
                    word_views(self.words@),
                    self.capitalize,
                    self.mutate,
                    #[trigger] gparts[j],
                ) by {
                    if j < prev.len() {
                        assert(gparts[j] == prev[j]);
                    } else {
                        assert(gparts[j] == rendered@);
                    }
                }
            }
            k = k + 1;
        }
        let value = chars_to_string(&acc);
        let millibits: u64;
        if self.mutate {
            millibits = sat_mul(self.word_count as u64, WORD_RATE_MILLI + MUTATION_BONUS_MILLI);
        } else {
            millibits = sat_mul(self.word_count as u64, WORD_RATE_MILLI);
        }
        proof {
            assert(value@ == acc@);
            if self.word_count >= 1 {
                lemma_sat_mul_pos(self.word_count as u64, spec_word_rate(self.mutate));
            }
        }
        GeneratedPassword { value, entropy: EntropyInfo::new(millibits, "Diceware") }
    }

    fn description(&self) -> (r: &'static str)
        ensures
            r@ == if self.mutate {
                "EFF Diceware passphrase (mutated)"@
            } else {
                "EFF Diceware passphrase"@
            },
    {
        if self.mutate {
            "EFF Diceware passphrase (mutated)"
        } else {
            "EFF Diceware passphrase"
        }
    }
}

} // verus!
