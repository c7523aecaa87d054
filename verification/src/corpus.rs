//! Corpus tokenizing.
//!
//! The training corpus is a text of lines, each of the form
//! `<rank><TAB><word>`; only the second field of a line with exactly two
//! fields is used, and lines of any other shape are skipped silently. A
//! word is then case folded and stripped to its letters; for the
//! transition model only words that still have at least three letters
//! qualify.

use vstd::prelude::*;
use crate::chars::fold_lower;
use crate::chars::is_letter;
use crate::chars::is_lower_letter;
use crate::chars::letter;
use crate::chars::lower;

verus! {

/// The pieces of `s` between newline characters, in order. There is
/// always at least one piece: splitting the empty text gives one empty
/// piece.
pub open spec fn spec_split(s: Seq<char>) -> Seq<Seq<char>>
    decreases s.len(),
{
    if s.len() == 0 {
        seq![Seq::<char>::empty()]
    } else if s[0] == '\n' {
        seq![Seq::<char>::empty()] + spec_split(s.drop_first())
    } else {
        let rest = spec_split(s.drop_first());
        seq![seq![s[0]] + rest[0]] + rest.drop_first()
    }
}

pub proof fn lemma_split_nonempty(s: Seq<char>)
    ensures
        spec_split(s).len() >= 1,
    decreases s.len(),
{
    if s.len() != 0 && s[0] != '\n' {
        lemma_split_nonempty(s.drop_first());
    }
}

/// Appending one character to the text appends to the last piece, or, for
/// a newline, opens a new empty piece.
pub proof fn lemma_split_push(s: Seq<char>, c: char)
    ensures
        c == '\n' ==> spec_split(s.push(c)) =~~= spec_split(s).push(Seq::<char>::empty()),
        c != '\n' ==> spec_split(s.push(c)) =~~= spec_split(s).update(
            spec_split(s).len() - 1,
            spec_split(s).last().push(c),
        ),
    decreases s.len(),
{
    lemma_split_nonempty(s);
    let t = s.push(c);
    if s.len() == 0 {
        assert(t.len() == 1);
        assert(t[0] == c);
        assert(t.drop_first() =~= Seq::<char>::empty());
        assert(spec_split(Seq::<char>::empty()) == seq![Seq::<char>::empty()]);
        if c == '\n' {
            assert(spec_split(t) == seq![Seq::<char>::empty()] + spec_split(t.drop_first()));
            assert(spec_split(t) =~~= spec_split(s).push(Seq::<char>::empty()));
        } else {
            let rest = spec_split(t.drop_first());
            assert(rest == seq![Seq::<char>::empty()]);
            assert(spec_split(t) == seq![seq![t[0]] + rest[0]] + rest.drop_first());
            assert(seq![t[0]] + rest[0] =~= spec_split(s).last().push(c));
            assert(spec_split(t) =~~= spec_split(s).update(
                spec_split(s).len() - 1,
                spec_split(s).last().push(c),
            ));
        }
    } else {
        assert(t.len() == s.len() + 1);
        assert(t[0] == s[0]);
        assert(t.drop_first() =~= s.drop_first().push(c));
        lemma_split_push(s.drop_first(), c);
        lemma_split_nonempty(s.drop_first());
        let rest = spec_split(s.drop_first());
        let rest2 = spec_split(t.drop_first());
        assert(rest2 == spec_split(s.drop_first().push(c)));
        if c == '\n' {
            assert(rest2 =~~= rest.push(Seq::<char>::empty()));
            if s[0] == '\n' {
                assert(spec_split(t) == seq![Seq::<char>::empty()] + rest2);
                assert(spec_split(s) == seq![Seq::<char>::empty()] + rest);
                assert(spec_split(t) =~~= spec_split(s).push(Seq::<char>::empty()));
            } else {
                assert(spec_split(t) == seq![seq![t[0]] + rest2[0]] + rest2.drop_first());
                assert(spec_split(s) == seq![seq![s[0]] + rest[0]] + rest.drop_first());
                assert(rest2[0] == rest[0]);
                assert(rest2.drop_first() =~~= rest.drop_first().push(Seq::<char>::empty()));
                assert(spec_split(t) =~~= spec_split(s).push(Seq::<char>::empty()));
            }
        } else {
            let fixed = rest.update(rest.len() - 1, rest.last().push(c));
            assert(rest2 =~~= fixed);
            if s[0] == '\n' {
                assert(spec_split(t) == seq![Seq::<char>::empty()] + rest2);
                assert(spec_split(s) == seq![Seq::<char>::empty()] + rest);
                assert((seq![Seq::<char>::empty()] + rest).last() == rest.last());
                assert(spec_split(t) =~~= spec_split(s).update(
                    spec_split(s).len() - 1,
                    spec_split(s).last().push(c),
                ));
            } else {
                assert(spec_split(t) == seq![seq![t[0]] + rest2[0]] + rest2.drop_first());
                assert(spec_split(s) == seq![seq![s[0]] + rest[0]] + rest.drop_first());
                if rest.len() == 1 {
                    assert(rest2[0] == rest[0].push(c));
                    assert(seq![t[0]] + rest2[0] =~= (seq![s[0]] + rest[0]).push(c));
                    assert(rest2.drop_first() =~~= rest.drop_first());
                    assert(spec_split(s).len() == 1);
                    assert(spec_split(s).last() == seq![s[0]] + rest[0]);
                    assert(spec_split(t) =~~= spec_split(s).update(
                        spec_split(s).len() - 1,
                        spec_split(s).last().push(c),
                    ));
                } else {
                    assert(rest2[0] == rest[0]);
                    assert(spec_split(s).last() == rest.last());
                    assert(spec_split(t) =~~= spec_split(s).update(
                        spec_split(s).len() - 1,
                        spec_split(s).last().push(c),
                    ));
                }
            }
        }
    }
}

/// A line with a trailing carriage return, as before a newline in a text
/// with Windows line endings, is read without it.
pub open spec fn chomp(line: Seq<char>) -> Seq<char> {
    if line.len() > 0 && line.last() == '\r' {
        line.drop_last()
    } else {
        line
    }
}

pub open spec fn has_tab(s: Seq<char>) -> bool {
    exists|i: int| 0 <= i < s.len() && s[i] == '\t'
}

/// The second of exactly two tab-separated fields: everything after the
/// first tab, provided no further tab follows. `None` for a line with no
/// tab or with more than one.
pub open spec fn spec_word_of(line: Seq<char>) -> Option<Seq<char>>
    decreases line.len(),
{
    if line.len() == 0 {
        None
    } else if line[0] == '\t' {
        if has_tab(line.drop_first()) {
            None
        } else {
            Some(line.drop_first())
        }
    } else {
        spec_word_of(line.drop_first())
    }
}

pub proof fn lemma_word_of_len(line: Seq<char>)
    ensures
        match spec_word_of(line) {
            Some(w) => w.len() < line.len(),
            None => true,
        },
    decreases line.len(),
{
    if line.len() > 0 && line[0] != '\t' {
        lemma_word_of_len(line.drop_first());
    }
}

/// Case folding and letter filtering of one word: uppercase ASCII letters
/// fold to lowercase, everything that is not an ASCII letter is dropped.
pub open spec fn spec_normalize(w: Seq<char>) -> Seq<char>
    decreases w.len(),
{
    if w.len() == 0 {
        Seq::empty()
    } else {
        let rest = spec_normalize(w.drop_last());
        if is_letter(w.last()) {
            rest.push(fold_lower(w.last()))
        } else {
            rest
        }
    }
}

pub proof fn lemma_normalize_len(w: Seq<char>)
    ensures
        spec_normalize(w).len() <= w.len(),
    decreases w.len(),
{
    if w.len() > 0 {
        lemma_normalize_len(w.drop_last());
    }
}

pub proof fn lemma_normalize_chars(w: Seq<char>)
    ensures
        forall|i: int|
            0 <= i < spec_normalize(w).len() ==> is_lower_letter(#[trigger] spec_normalize(w)[i]),
    decreases w.len(),
{
    if w.len() > 0 {
        lemma_normalize_chars(w.drop_last());
        let rest = spec_normalize(w.drop_last());
        if is_letter(w.last()) {
            crate::chars::lemma_fold_lower_letter(w.last());
            assert(spec_normalize(w) == rest.push(fold_lower(w.last())));
            assert forall|i: int| 0 <= i < spec_normalize(w).len() implies is_lower_letter(
                #[trigger] spec_normalize(w)[i],
            ) by {
                if i < rest.len() {
                    assert(spec_normalize(w)[i] == rest[i]);
                } else {
                    assert(spec_normalize(w)[i] == fold_lower(w.last()));
                }
            }
        } else {
            assert(spec_normalize(w) == rest);
        }
    }
}

/// The qualifying words of a sequence of lines: the second field of every
/// two-field line, case folded and stripped to letters, kept when at
/// least three letters remain.
pub open spec fn qualifying(lines: Seq<Seq<char>>) -> Seq<Seq<char>>
    decreases lines.len(),
{
    if lines.len() == 0 {
        Seq::empty()
    } else {
        let rest = qualifying(lines.drop_last());
        match spec_word_of(chomp(lines.last())) {
            Some(w) => {
                if spec_normalize(w).len() >= 3 {
                    rest.push(spec_normalize(w))
                } else {
                    rest
                }
            },
            None => rest,
        }
    }
}

/// The raw words of a sequence of lines: the second field of every
/// two-field line, untouched.
pub open spec fn raw_words(lines: Seq<Seq<char>>) -> Seq<Seq<char>>
    decreases lines.len(),
{
    if lines.len() == 0 {
        Seq::empty()
    } else {
        let rest = raw_words(lines.drop_last());
        match spec_word_of(chomp(lines.last())) {
            Some(w) => rest.push(w),
            None => rest,
        }
    }
}

/// The words of the training corpus that feed the transition model.
pub open spec fn spec_corpus_words(s: Seq<char>) -> Seq<Seq<char>> {
    qualifying(spec_split(s))
}

pub proof fn lemma_qualifying_chars(lines: Seq<Seq<char>>)
    ensures
        forall|i: int| #![trigger qualifying(lines)[i]]
            0 <= i < qualifying(lines).len() ==> {
                &&& qualifying(lines)[i].len() >= 3
                &&& forall|j: int|
                    0 <= j < qualifying(lines)[i].len() ==> is_lower_letter(
                        #[trigger] qualifying(lines)[i][j],
                    )
            },
    decreases lines.len(),
{
    if lines.len() > 0 {
        lemma_qualifying_chars(lines.drop_last());
        let rest = qualifying(lines.drop_last());
        match spec_word_of(chomp(lines.last())) {
            Some(w) => {
                lemma_normalize_chars(w);
                if spec_normalize(w).len() >= 3 {
                    assert(qualifying(lines) == rest.push(spec_normalize(w)));
                    assert forall|i: int| 0 <= i < qualifying(lines).len() implies {
                        &&& #[trigger] qualifying(lines)[i].len() >= 3
                        &&& forall|j: int|
                            0 <= j < qualifying(lines)[i].len() ==> is_lower_letter(
                                #[trigger] qualifying(lines)[i][j],
                            )
                    } by {
                        if i < rest.len() {
                            assert(qualifying(lines)[i] == rest[i]);
                        } else {
                            assert(qualifying(lines)[i] == spec_normalize(w));
                        }
                    }
                } else {
                    assert(qualifying(lines) == rest);
                }
            },
            None => {
                assert(qualifying(lines) == rest);
            },
        }
    }
}

/// Total character count of a sequence of lines.
pub open spec fn sum_len(lines: Seq<Seq<char>>) -> int
    decreases lines.len(),
{
    if lines.len() == 0 {
        0
    } else {
        lines[0].len() + sum_len(lines.drop_first())
    }
}

pub proof fn lemma_sum_len_drop_last(lines: Seq<Seq<char>>)
    requires
        lines.len() >= 1,
    ensures
        sum_len(lines) == sum_len(lines.drop_last()) + lines.last().len(),
    decreases lines.len(),
{
    if lines.len() == 1 {
        assert(lines.drop_last() =~= Seq::<Seq<char>>::empty());
        assert(lines.drop_first() =~= Seq::<Seq<char>>::empty());
        assert(sum_len(lines) == lines[0].len() + sum_len(lines.drop_first()));
        assert(lines[0] == lines.last());
    } else {
        lemma_sum_len_drop_last(lines.drop_first());
        assert(lines.drop_first().drop_last() =~= lines.drop_last().drop_first());
        assert(lines.drop_first().last() == lines.last());
        assert(sum_len(lines) == lines[0].len() + sum_len(lines.drop_first()));
        assert(lines.drop_last().len() >= 1);
        assert(lines.drop_last()[0] == lines[0]);
        assert(sum_len(lines.drop_last()) == lines.drop_last()[0].len() + sum_len(
            lines.drop_last().drop_first(),
        ));
    }
}

/// Splitting never makes more text: the pieces together are at most as
/// long as the split text.
pub proof fn lemma_split_sum(s: Seq<char>)
    ensures
        sum_len(spec_split(s)) <= s.len(),
    decreases s.len(),
{
    if s.len() == 0 {
        assert(spec_split(s) == seq![Seq::<char>::empty()]);
        assert(sum_len(seq![Seq::<char>::empty()]) == 0 + sum_len(
            seq![Seq::<char>::empty()].drop_first(),
        ));
        assert(seq![Seq::<char>::empty()].drop_first() =~= Seq::<Seq<char>>::empty());
    } else if s[0] == '\n' {
        lemma_split_sum(s.drop_first());
        let combined = seq![Seq::<char>::empty()] + spec_split(s.drop_first());
        assert(spec_split(s) == combined);
        assert(combined.drop_first() =~= spec_split(s.drop_first()));
        assert(combined.len() >= 1);
        assert(combined[0] =~= Seq::<char>::empty());
        assert(sum_len(combined) == combined[0].len() + sum_len(combined.drop_first()));
    } else {
        lemma_split_sum(s.drop_first());
        lemma_split_nonempty(s.drop_first());
        let rest = spec_split(s.drop_first());
        let combined = seq![seq![s[0]] + rest[0]] + rest.drop_first();
        assert(spec_split(s) == combined);
        assert(combined.drop_first() =~= rest.drop_first());
        assert(combined[0] == seq![s[0]] + rest[0]);
        assert(sum_len(combined) == combined[0].len() + sum_len(combined.drop_first()));
        assert(sum_len(rest) == rest[0].len() + sum_len(rest.drop_first()));
    }
}

/// The qualifying words together are at most as long as their lines.
pub proof fn lemma_qualifying_sum(lines: Seq<Seq<char>>)
    ensures
        sum_len(qualifying(lines)) <= sum_len(lines),
        3 * qualifying(lines).len() <= sum_len(qualifying(lines)),
    decreases lines.len(),
{
    if lines.len() > 0 {
        lemma_qualifying_sum(lines.drop_last());
        lemma_sum_len_drop_last(lines);
        let rest = qualifying(lines.drop_last());
        match spec_word_of(chomp(lines.last())) {
            Some(w) => {
                lemma_word_of_len(chomp(lines.last()));
                lemma_normalize_len(w);
                if spec_normalize(w).len() >= 3 {
                    lemma_sum_len_drop_last(rest.push(spec_normalize(w)));
                    assert(rest.push(spec_normalize(w)).drop_last() =~= rest);
                }
            },
            None => {},
        }
    }
}

/// Split a text into its lines. The result is never empty.
pub fn split_lines(corpus: &Vec<char>) -> (r: Vec<Vec<char>>)
    ensures
        r@.len() == spec_split(corpus@).len(),
        forall|i: int| 0 <= i < r@.len() ==> r@[i]@ == spec_split(corpus@)[i],
{
    let mut done: Vec<Vec<char>> = Vec::new();
    let mut cur: Vec<char> = Vec::new();
    let mut i: usize = 0;
    while i < corpus.len()
        invariant
            i <= corpus.len(),
            done@.len() + 1 == spec_split(corpus@.take(i as int)).len(),
            forall|j: int|
                0 <= j < done@.len() ==> done@[j]@ == spec_split(corpus@.take(i as int))[j],
            cur@ == spec_split(corpus@.take(i as int)).last(),
        decreases corpus.len() - i,
    {
        proof {
            lemma_split_push(corpus@.take(i as int), corpus@[i as int]);
            assert(corpus@.take(i as int).push(corpus@[i as int]) =~= corpus@.take(i + 1));
        }
        let c = corpus[i];
        if c == '\n' {
            done.push(cur);
            cur = Vec::new();
        } else {
            cur.push(c);
        }
        i = i + 1;
    }
    proof {
        assert(corpus@.take(corpus@.len() as int) =~= corpus@);
    }
    done.push(cur);
    done
}

/// The second of exactly two tab-separated fields of a line, with a
/// trailing carriage return stripped first; `None` for any other shape.
pub fn extract_word(line: &Vec<char>) -> (r: Option<Vec<char>>)
    ensures
        match r {
            Some(w) => spec_word_of(chomp(line@)) == Some(w@),
            None => spec_word_of(chomp(line@)) is None,
        },
{
    let n: usize = if line.len() > 0 && line[line.len() - 1] == '\r' {
        line.len() - 1
    } else {
        line.len()
    };
    let ghost eff = chomp(line@);
    proof {
        assert(eff =~= line@.take(n as int));
        assert(eff.skip(0) =~= eff);
    }

    // Find the first tab.
    let mut i: usize = 0;
    while i < n
        invariant
            i <= n <= line@.len(),
            eff == chomp(line@),
            eff =~= line@.take(n as int),
            spec_word_of(eff) == spec_word_of(eff.skip(i as int)),
            forall|j: int| 0 <= j < i ==> eff[j] != '\t',
        decreases n - i,
    {
        if line[i] == '\t' {
            // No second tab may follow.
            let mut j: usize = i + 1;
            while j < n
                invariant
                    i < j <= n <= line@.len(),
                    eff == chomp(line@),
                    eff =~= line@.take(n as int),
                    spec_word_of(eff) == spec_word_of(eff.skip(i as int)),
                    eff[i as int] == '\t',
                    forall|k: int| i < k < j ==> eff[k] != '\t',
                decreases n - j,
            {
                if line[j] == '\t' {
                    proof {
                        assert(eff.skip(i as int)[0] == '\t');
                        assert(eff.skip(i + 1)[j - i - 1] == '\t');
                        assert(has_tab(eff.skip(i + 1)));
                        assert(eff.skip(i as int).drop_first() =~= eff.skip(i + 1));
                        assert(has_tab(eff.skip(i as int).drop_first()));
                        assert(eff.skip(i as int).len() > 0);
                        assert(spec_word_of(eff.skip(i as int)) is None);
                        assert(spec_word_of(chomp(line@)) is None);
                    }
                    return None;
                }
                j = j + 1;
            }
            proof {
                assert(eff.skip(i as int).drop_first() =~= eff.skip(i + 1));
                assert forall|k: int| 0 <= k < eff.skip(i + 1).len() implies #[trigger] eff.skip(
                    i + 1,
                )[k] != '\t' by {
                    assert(eff.skip(i + 1)[k] == eff[k + i + 1]);
                }
                assert(!has_tab(eff.skip(i + 1)));
            }
            // Copy the field after the tab.
            let mut w: Vec<char> = Vec::new();
            let mut k: usize = i + 1;
            while k < n
                invariant
                    i + 1 <= k <= n <= line@.len(),
                    eff =~= line@.take(n as int),
                    w@.len() == k - i - 1,
                    forall|t: int| 0 <= t < w@.len() ==> w@[t] == eff[i + 1 + t],
                decreases n - k,
            {
                w.push(line[k]);
                k = k + 1;
            }
            proof {
                assert(w@ =~= eff.skip(i + 1));
            }
            return Some(w);
        }
        proof {
            assert(eff.skip(i as int)[0] == eff[i as int]);
            assert(eff.skip(i as int).drop_first() =~= eff.skip(i + 1));
        }
        i = i + 1;
    }
    proof {
        assert(eff.skip(i as int).len() == 0);
    }
    None
}

/// Case fold a word and keep only its letters.
pub fn normalize_word(word: &Vec<char>) -> (r: Vec<char>)
    ensures
        r@ == spec_normalize(word@),
{
    let mut r: Vec<char> = Vec::new();
    let mut i: usize = 0;
    while i < word.len()
        invariant
            i <= word.len(),
            r@ == spec_normalize(word@.take(i as int)),
        decreases word.len() - i,
    {
        proof {
            assert(word@.take(i + 1).drop_last() =~= word@.take(i as int));
            assert(word@.take(i + 1).last() == word@[i as int]);
        }
        let c = word[i];
        if letter(c) {
            r.push(lower(c));
        }
        i = i + 1;
    }
    proof {
        assert(word@.take(word@.len() as int) =~= word@);
    }
    r
}

/// The qualifying words of a whole corpus, for the model builder.
pub fn corpus_words(corpus: &Vec<char>) -> (r: Vec<Vec<char>>)
    ensures
        r@.len() == spec_corpus_words(corpus@).len(),
        forall|i: int| 0 <= i < r@.len() ==> r@[i]@ == spec_corpus_words(corpus@)[i],
{
    let lines = split_lines(corpus);
    let ghost lseq = spec_split(corpus@);
    let mut out: Vec<Vec<char>> = Vec::new();
    let mut i: usize = 0;
    while i < lines.len()
        invariant
            i <= lines.len(),
            lines@.len() == lseq.len(),
            forall|j: int| 0 <= j < lseq.len() ==> lines@[j]@ == lseq[j],
            out@.len() == qualifying(lseq.take(i as int)).len(),
            forall|j: int| 0 <= j < out@.len() ==> out@[j]@ == qualifying(lseq.take(i as int))[j],
        decreases lines.len() - i,
    {
        proof {
            assert(lseq.take(i + 1).drop_last() =~= lseq.take(i as int));
            assert(lseq.take(i + 1).last() == lseq[i as int]);
        }
        let line = &lines[i];
        match extract_word(line) {
            Some(w) => {
                let norm = normalize_word(&w);
                if norm.len() >= 3 {
                    out.push(norm);
                }
            },
            None => {},
        }
        i = i + 1;
    }
    proof {
        assert(lseq.take(lseq.len() as int) =~= lseq);
    }
    out
}

/// The raw words of a whole corpus, for the passphrase word list.
pub fn corpus_raw_words(corpus: &Vec<char>) -> (r: Vec<Vec<char>>)
    ensures
        r@.len() == raw_words(spec_split(corpus@)).len(),
        forall|i: int| 0 <= i < r@.len() ==> r@[i]@ == raw_words(spec_split(corpus@))[i],
{
    let lines = split_lines(corpus);
    let ghost lseq = spec_split(corpus@);
    let mut out: Vec<Vec<char>> = Vec::new();
    let mut i: usize = 0;
    while i < lines.len()
        invariant
            i <= lines.len(),
            lines@.len() == lseq.len(),
            forall|j: int| 0 <= j < lseq.len() ==> lines@[j]@ == lseq[j],
            out@.len() == raw_words(lseq.take(i as int)).len(),
            forall|j: int| 0 <= j < out@.len() ==> out@[j]@ == raw_words(lseq.take(i as int))[j],
        decreases lines.len() - i,
    {
        proof {
            assert(lseq.take(i + 1).drop_last() =~= lseq.take(i as int));
            assert(lseq.take(i + 1).last() == lseq[i as int]);
        }
        let line = &lines[i];
        match extract_word(line) {
            Some(w) => {
                out.push(w);
            },
            None => {},
        }
        i = i + 1;
    }
    proof {
        assert(lseq.take(lseq.len() as int) =~= lseq);
    }
    out
}

} // verus!
