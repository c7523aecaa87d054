//! The transition model.
//!
//! A second-order character model built once from the training corpus and
//! read-only afterwards. For every ordered pair of characters seen inside
//! a qualifying word (a context) it keeps the observed successor
//! characters with their frequency counts, and for every pair opening a
//! word a start weight. The average branching factor is kept as an exact
//! rational (total distinct successors over number of contexts) together
//! with its base-2 logarithm in millibits, fixed at build time for the
//! entropy estimate.

use vstd::prelude::*;
use crate::chars::is_lower_letter;
use crate::corpus::spec_corpus_words;
use crate::corpus::qualifying;
use crate::corpus::spec_split;
use crate::corpus::corpus_words;
use crate::corpus::lemma_qualifying_chars;
use crate::corpus::lemma_qualifying_sum;
use crate::corpus::lemma_split_sum;
use crate::corpus::sum_len;
use crate::corpus::lemma_sum_len_drop_last;
use crate::entropy::log2_milli;
use vstd::arithmetic::power2::pow2;

verus! {

/// One observed successor of a context, with its frequency count.
pub struct Succ {
    pub ch: char,
    pub weight: u64,
}

/// One context with its list of observed successors.
pub struct Row {
    pub c0: char,
    pub c1: char,
    pub succs: Vec<Succ>,
}

/// One start context with its frequency count.
pub struct StartEntry {
    pub c0: char,
    pub c1: char,
    pub weight: u64,
}

/// The weight recorded for successor `c` in a successor list; zero when
/// the character is absent.
pub open spec fn succ_weight_of(s: Seq<Succ>, c: char) -> int
    decreases s.len(),
{
    if s.len() == 0 {
        0
    } else if s.last().ch == c {
        s.last().weight as int
    } else {
        succ_weight_of(s.drop_last(), c)
    }
}

/// The weight recorded for the start context `(c0, c1)`; zero when the
/// context is absent.
pub open spec fn start_weight_of(s: Seq<StartEntry>, c0: char, c1: char) -> int
    decreases s.len(),
{
    if s.len() == 0 {
        0
    } else if s.last().c0 == c0 && s.last().c1 == c1 {
        s.last().weight as int
    } else {
        start_weight_of(s.drop_last(), c0, c1)
    }
}

/// The weight recorded for the transition `(c0, c1) -> c2`; zero when the
/// context or the successor is absent.
pub open spec fn trans_weight_of(rows: Seq<Row>, c0: char, c1: char, c2: char) -> int
    decreases rows.len(),
{
    if rows.len() == 0 {
        0
    } else if rows.last().c0 == c0 && rows.last().c1 == c1 {
        succ_weight_of(rows.last().succs@, c2)
    } else {
        trans_weight_of(rows.drop_last(), c0, c1, c2)
    }
}

/// Total number of distinct successors over all contexts.
pub open spec fn total_succs(rows: Seq<Row>) -> int
    decreases rows.len(),
{
    if rows.len() == 0 {
        0
    } else {
        total_succs(rows.drop_last()) + rows.last().succs@.len()
    }
}

/// A successor list holds positive counts for lowercase letters, one
/// entry per character.
pub open spec fn succs_wf(s: Seq<Succ>) -> bool {
    &&& forall|i: int|
        0 <= i < s.len() ==> (#[trigger] s[i]).weight >= 1 && is_lower_letter(s[i].ch)
    &&& forall|i: int, j: int| 0 <= i < j < s.len() ==> s[i].ch != s[j].ch
}

/// A start list holds positive counts for lowercase contexts, one entry
/// per context.
pub open spec fn starts_wf(s: Seq<StartEntry>) -> bool {
    &&& forall|i: int|
        0 <= i < s.len() ==> (#[trigger] s[i]).weight >= 1 && is_lower_letter(s[i].c0)
            && is_lower_letter(s[i].c1)
    &&& forall|i: int, j: int|
        0 <= i < j < s.len() ==> !(s[i].c0 == s[j].c0 && s[i].c1 == s[j].c1)
}

/// The rows hold one non-empty well-formed successor list per context.
pub open spec fn rows_wf(rows: Seq<Row>) -> bool {
    &&& forall|i: int|
        0 <= i < rows.len() ==> {
            &&& succs_wf((#[trigger] rows[i]).succs@)
            &&& rows[i].succs@.len() >= 1
            &&& is_lower_letter(rows[i].c0)
            &&& is_lower_letter(rows[i].c1)
        }
    &&& forall|i: int, j: int|
        0 <= i < j < rows.len() ==> !(rows[i].c0 == rows[j].c0 && rows[i].c1 == rows[j].c1)
}

/// A successor list with no entry for `c` records weight zero for it.
pub proof fn lemma_succ_absent(s: Seq<Succ>, c: char)
    requires
        forall|i: int| 0 <= i < s.len() ==> (#[trigger] s[i]).ch != c,
    ensures
        succ_weight_of(s, c) == 0,
    decreases s.len(),
{
    if s.len() > 0 {
        lemma_succ_absent(s.drop_last(), c);
    }
}

/// With one entry per character, the recorded weight is the weight of any
/// matching entry.
pub proof fn lemma_succ_at(s: Seq<Succ>, k: int, c: char)
    requires
        succs_wf(s),
        0 <= k < s.len(),
        s[k].ch == c,
    ensures
        succ_weight_of(s, c) == s[k].weight,
    decreases s.len(),
{
    if k == s.len() - 1 {
    } else {
        assert(s.last().ch != c);
        assert(s.drop_last()[k] == s[k]);
        lemma_succ_at(s.drop_last(), k, c);
    }
}

/// Updating the entry for one character moves its recorded weight and no
/// other.
pub proof fn lemma_succ_update(s: Seq<Succ>, k: int, e: Succ)
    requires
        succs_wf(s),
        0 <= k < s.len(),
        s[k].ch == e.ch,
    ensures
        forall|d: char|
            #[trigger] succ_weight_of(s.update(k, e), d) == if d == e.ch {
                e.weight as int
            } else {
                succ_weight_of(s, d)
            },
    decreases s.len(),
{
    let s2 = s.update(k, e);
    if k == s.len() - 1 {
        assert(s2.last() == e);
        assert(s2.drop_last() =~= s.drop_last());
        assert forall|d: char| #[trigger] succ_weight_of(s2, d) == if d == e.ch {
            e.weight as int
        } else {
            succ_weight_of(s, d)
        } by {
            if d != e.ch {
                assert(succ_weight_of(s2, d) == succ_weight_of(s2.drop_last(), d));
                assert(s.last().ch == e.ch);
                assert(succ_weight_of(s, d) == succ_weight_of(s.drop_last(), d));
            }
        }
    } else {
        assert(s.drop_last()[k] == s[k]);
        lemma_succ_update(s.drop_last(), k, e);
        assert(s2.drop_last() =~= s.drop_last().update(k, e));
        assert(s2.last() == s.last());
        assert(s.last().ch != e.ch);
        assert forall|d: char| #[trigger] succ_weight_of(s2, d) == if d == e.ch {
            e.weight as int
        } else {
            succ_weight_of(s, d)
        } by {
            if s2.last().ch == d {
            } else {
                assert(succ_weight_of(s2, d) == succ_weight_of(s2.drop_last(), d));
            }
        }
    }
}

/// Appending an entry for a fresh character adds its recorded weight and
/// no other.
pub proof fn lemma_succ_push(s: Seq<Succ>, e: Succ)
    ensures
        forall|d: char|
            #[trigger] succ_weight_of(s.push(e), d) == if d == e.ch {
                e.weight as int
            } else {
                succ_weight_of(s, d)
            },
{
    assert(s.push(e).last() == e);
    assert(s.push(e).drop_last() =~= s);
}

/// A start list with no entry for a context records weight zero for it.
pub proof fn lemma_start_absent(s: Seq<StartEntry>, c0: char, c1: char)
    requires
        forall|i: int| 0 <= i < s.len() ==> !((#[trigger] s[i]).c0 == c0 && s[i].c1 == c1),
    ensures
        start_weight_of(s, c0, c1) == 0,
    decreases s.len(),
{
    if s.len() > 0 {
        lemma_start_absent(s.drop_last(), c0, c1);
    }
}

/// With one entry per context, the recorded weight is the weight of any
/// matching entry.
pub proof fn lemma_start_at(s: Seq<StartEntry>, k: int)
    requires
        starts_wf(s),
        0 <= k < s.len(),
    ensures
        start_weight_of(s, s[k].c0, s[k].c1) == s[k].weight,
    decreases s.len(),
{
    if k == s.len() - 1 {
    } else {
        assert(!(s.last().c0 == s[k].c0 && s.last().c1 == s[k].c1));
        assert(s.drop_last()[k] == s[k]);
        lemma_start_at(s.drop_last(), k);
    }
}

/// Updating the entry for one context moves its recorded weight and no
/// other.
pub proof fn lemma_start_update(s: Seq<StartEntry>, k: int, e: StartEntry)
    requires
        starts_wf(s),
        0 <= k < s.len(),
        s[k].c0 == e.c0,
        s[k].c1 == e.c1,
    ensures
        forall|d0: char, d1: char|
            #[trigger] start_weight_of(s.update(k, e), d0, d1) == if d0 == e.c0 && d1 == e.c1 {
                e.weight as int
            } else {
                start_weight_of(s, d0, d1)
            },
    decreases s.len(),
{
    let s2 = s.update(k, e);
    if k == s.len() - 1 {
        assert(s2.last() == e);
        assert(s2.drop_last() =~= s.drop_last());
        assert forall|d0: char, d1: char| #[trigger] start_weight_of(s2, d0, d1) == if d0 == e.c0
            && d1 == e.c1 {
            e.weight as int
        } else {
            start_weight_of(s, d0, d1)
        } by {
            if !(d0 == e.c0 && d1 == e.c1) {
                assert(start_weight_of(s2, d0, d1) == start_weight_of(s2.drop_last(), d0, d1));
                assert(start_weight_of(s, d0, d1) == start_weight_of(s.drop_last(), d0, d1));
            }
        }
    } else {
        assert(s.drop_last()[k] == s[k]);
        lemma_start_update(s.drop_last(), k, e);
        assert(s2.drop_last() =~= s.drop_last().update(k, e));
        assert(s2.last() == s.last());
        assert(!(s.last().c0 == e.c0 && s.last().c1 == e.c1));
        assert forall|d0: char, d1: char| #[trigger] start_weight_of(s2, d0, d1) == if d0 == e.c0
            && d1 == e.c1 {
            e.weight as int
        } else {
            start_weight_of(s, d0, d1)
        } by {
            if s2.last().c0 == d0 && s2.last().c1 == d1 {
            } else {
                assert(start_weight_of(s2, d0, d1) == start_weight_of(s2.drop_last(), d0, d1));
            }
        }
    }
}

/// Appending an entry for a fresh context adds its recorded weight and no
/// other.
pub proof fn lemma_start_push(s: Seq<StartEntry>, e: StartEntry)
    ensures
        forall|d0: char, d1: char|
            #[trigger] start_weight_of(s.push(e), d0, d1) == if d0 == e.c0 && d1 == e.c1 {
                e.weight as int
            } else {
                start_weight_of(s, d0, d1)
            },
{
    assert(s.push(e).last() == e);
    assert(s.push(e).drop_last() =~= s);
}

/// A row list with no row for a context records weight zero for all its
/// transitions.
pub proof fn lemma_rows_absent(rows: Seq<Row>, c0: char, c1: char)
    requires
        forall|i: int| 0 <= i < rows.len() ==> !((#[trigger] rows[i]).c0 == c0 && rows[i].c1 == c1),
    ensures
        forall|c2: char| #[trigger] trans_weight_of(rows, c0, c1, c2) == 0,
    decreases rows.len(),
{
    if rows.len() > 0 {
        assert forall|i: int|
            0 <= i < rows.drop_last().len() implies !((#[trigger] rows.drop_last()[i]).c0 == c0
            && rows.drop_last()[i].c1 == c1) by {
            assert(rows.drop_last()[i] == rows[i]);
        }
        lemma_rows_absent(rows.drop_last(), c0, c1);
        assert(!(rows.last().c0 == c0 && rows.last().c1 == c1));
        assert forall|c2: char| #[trigger] trans_weight_of(rows, c0, c1, c2) == 0 by {
            assert(trans_weight_of(rows, c0, c1, c2) == trans_weight_of(
                rows.drop_last(),
                c0,
                c1,
                c2,
            ));
        }
    }
}

/// With one row per context, the recorded transition weights of a context
/// are those of any matching row.
pub proof fn lemma_rows_at(rows: Seq<Row>, k: int)
    requires
        rows_wf(rows),
        0 <= k < rows.len(),
    ensures
        forall|c2: char|
            #[trigger] trans_weight_of(rows, rows[k].c0, rows[k].c1, c2) == succ_weight_of(
                rows[k].succs@,
                c2,
            ),
    decreases rows.len(),
{
    if k == rows.len() - 1 {
    } else {
        assert(!(rows.last().c0 == rows[k].c0 && rows.last().c1 == rows[k].c1));
        assert(rows.drop_last()[k] == rows[k]);
        lemma_rows_at(rows.drop_last(), k);
        assert forall|c2: char|
            #[trigger] trans_weight_of(rows, rows[k].c0, rows[k].c1, c2) == succ_weight_of(
                rows[k].succs@,
                c2,
            ) by {
            assert(trans_weight_of(rows, rows[k].c0, rows[k].c1, c2) == trans_weight_of(
                rows.drop_last(),
                rows[k].c0,
                rows[k].c1,
                c2,
            ));
            assert(trans_weight_of(rows.drop_last(), rows.drop_last()[k].c0,
                rows.drop_last()[k].c1, c2) == succ_weight_of(rows.drop_last()[k].succs@, c2));
        }
    }
}

/// Replacing the row of one context moves that context's transition
/// weights and no other's, and shifts the successor total by the change
/// in that row's length.
pub proof fn lemma_rows_update(rows: Seq<Row>, k: int, row: Row)
    requires
        rows_wf(rows),
        0 <= k < rows.len(),
        rows[k].c0 == row.c0,
        rows[k].c1 == row.c1,
    ensures
        forall|d0: char, d1: char, d2: char|
            #[trigger] trans_weight_of(rows.update(k, row), d0, d1, d2) == if d0 == row.c0 && d1
                == row.c1 {
                succ_weight_of(row.succs@, d2)
            } else {
                trans_weight_of(rows, d0, d1, d2)
            },
        total_succs(rows.update(k, row)) == total_succs(rows) - rows[k].succs@.len()
            + row.succs@.len(),
    decreases rows.len(),
{
    let r2 = rows.update(k, row);
    if k == rows.len() - 1 {
        assert(r2.last() == row);
        assert(r2.drop_last() =~= rows.drop_last());
        assert forall|d0: char, d1: char, d2: char| #[trigger] trans_weight_of(r2, d0, d1, d2)
            == if d0 == row.c0 && d1 == row.c1 {
            succ_weight_of(row.succs@, d2)
        } else {
            trans_weight_of(rows, d0, d1, d2)
        } by {
            if !(d0 == row.c0 && d1 == row.c1) {
                assert(trans_weight_of(r2, d0, d1, d2) == trans_weight_of(
                    r2.drop_last(),
                    d0,
                    d1,
                    d2,
                ));
                assert(trans_weight_of(rows, d0, d1, d2) == trans_weight_of(
                    rows.drop_last(),
                    d0,
                    d1,
                    d2,
                ));
            }
        }
    } else {
        assert(rows.drop_last()[k] == rows[k]);
        lemma_rows_update(rows.drop_last(), k, row);
        assert(r2.drop_last() =~= rows.drop_last().update(k, row));
        assert(r2.last() == rows.last());
        assert(!(rows.last().c0 == row.c0 && rows.last().c1 == row.c1));
        assert forall|d0: char, d1: char, d2: char| #[trigger] trans_weight_of(r2, d0, d1, d2)
            == if d0 == row.c0 && d1 == row.c1 {
            succ_weight_of(row.succs@, d2)
        } else {
            trans_weight_of(rows, d0, d1, d2)
        } by {
            if r2.last().c0 == d0 && r2.last().c1 == d1 {
            } else {
                assert(trans_weight_of(r2, d0, d1, d2) == trans_weight_of(
                    r2.drop_last(),
                    d0,
                    d1,
                    d2,
                ));
            }
        }
    }
}

/// Appending a row for a fresh context adds its transition weights and no
/// other's, and its successors to the total.
pub proof fn lemma_rows_push(rows: Seq<Row>, row: Row)
    ensures
        forall|d0: char, d1: char, d2: char|
            #[trigger] trans_weight_of(rows.push(row), d0, d1, d2) == if d0 == row.c0 && d1
                == row.c1 {
                succ_weight_of(row.succs@, d2)
            } else {
                trans_weight_of(rows, d0, d1, d2)
            },
        total_succs(rows.push(row)) == total_succs(rows) + row.succs@.len(),
{
    assert(rows.push(row).last() == row);
    assert(rows.push(row).drop_last() =~= rows);
}

/// How many of the words open with the context `(c0, c1)`.
pub open spec fn count_starts(words: Seq<Seq<char>>, c0: char, c1: char) -> int
    decreases words.len(),
{
    if words.len() == 0 {
        0
    } else {
        count_starts(words.drop_last(), c0, c1) + if words.last().len() >= 2
            && words.last()[0] == c0 && words.last()[1] == c1 {
            1int
        } else {
            0
        }
    }
}

/// How many positions below `j` open the trigram `(c0, c1, c2)` in `w`.
pub open spec fn count_tri_prefix(w: Seq<char>, j: int, c0: char, c1: char, c2: char) -> int
    decreases j,
{
    if j <= 0 {
        0
    } else {
        count_tri_prefix(w, j - 1, c0, c1, c2) + if j + 1 < w.len() && w[j - 1] == c0 && w[j] == c1
            && w[j + 1] == c2 {
            1int
        } else {
            0
        }
    }
}

/// How many positions of `w` open the trigram `(c0, c1, c2)`.
pub open spec fn count_tri(w: Seq<char>, c0: char, c1: char, c2: char) -> int {
    count_tri_prefix(w, w.len() - 2, c0, c1, c2)
}

/// How many positions over all the words open the trigram `(c0, c1, c2)`.
pub open spec fn count_trans(words: Seq<Seq<char>>, c0: char, c1: char, c2: char) -> int
    decreases words.len(),
{
    if words.len() == 0 {
        0
    } else {
        count_trans(words.drop_last(), c0, c1, c2) + count_tri(words.last(), c0, c1, c2)
    }
}

/// Total number of trigram positions over all the words.
pub open spec fn sum_windows(words: Seq<Seq<char>>) -> int
    decreases words.len(),
{
    if words.len() == 0 {
        0
    } else {
        sum_windows(words.drop_last()) + if words.last().len() >= 2 {
            words.last().len() - 2
        } else {
            0
        }
    }
}

pub proof fn lemma_count_starts_bounds(words: Seq<Seq<char>>, c0: char, c1: char)
    ensures
        0 <= count_starts(words, c0, c1) <= words.len(),
    decreases words.len(),
{
    if words.len() > 0 {
        lemma_count_starts_bounds(words.drop_last(), c0, c1);
    }
}

pub proof fn lemma_count_tri_prefix_bounds(w: Seq<char>, j: int, c0: char, c1: char, c2: char)
    ensures
        0 <= count_tri_prefix(w, j, c0, c1, c2),
        j >= 0 ==> count_tri_prefix(w, j, c0, c1, c2) <= j,
    decreases j,
{
    if j > 0 {
        lemma_count_tri_prefix_bounds(w, j - 1, c0, c1, c2);
    }
}

pub proof fn lemma_count_tri_prefix_mono(w: Seq<char>, j1: int, j2: int, c0: char, c1: char, c2: char)
    requires
        j1 <= j2,
    ensures
        count_tri_prefix(w, j1, c0, c1, c2) <= count_tri_prefix(w, j2, c0, c1, c2),
    decreases j2 - j1,
{
    if j1 < j2 {
        lemma_count_tri_prefix_mono(w, j1, j2 - 1, c0, c1, c2);
        lemma_count_tri_prefix_bounds(w, j2, c0, c1, c2);
    }
}

pub proof fn lemma_count_trans_bounds(words: Seq<Seq<char>>, c0: char, c1: char, c2: char)
    ensures
        0 <= count_trans(words, c0, c1, c2) <= sum_windows(words),
    decreases words.len(),
{
    if words.len() > 0 {
        lemma_count_trans_bounds(words.drop_last(), c0, c1, c2);
        let w = words.last();
        lemma_count_tri_prefix_bounds(w, w.len() - 2, c0, c1, c2);
    }
}

pub proof fn lemma_sum_windows_le(words: Seq<Seq<char>>)
    ensures
        sum_windows(words) <= sum_len(words),
    decreases words.len(),
{
    if words.len() > 0 {
        lemma_sum_windows_le(words.drop_last());
        lemma_sum_len_drop_last(words);
    }
}

/// Counts over a prefix of the words never exceed the counts over all of
/// them.
pub proof fn lemma_counts_take(words: Seq<Seq<char>>, i: int, c0: char, c1: char, c2: char)
    requires
        0 <= i <= words.len(),
    ensures
        count_starts(words.take(i), c0, c1) <= count_starts(words, c0, c1),
        count_trans(words.take(i), c0, c1, c2) <= count_trans(words, c0, c1, c2),
        sum_windows(words.take(i)) <= sum_windows(words),
    decreases words.len() - i,
{
    if i == words.len() {
        assert(words.take(i) =~= words);
    } else {
        lemma_counts_take(words, i + 1, c0, c1, c2);
        assert(words.take(i + 1).drop_last() =~= words.take(i));
        assert(words.take(i + 1).last() == words[i]);
        lemma_count_tri_prefix_bounds(words[i], words[i].len() - 2, c0, c1, c2);
    }
}

/// Every row carries at least one successor, so the successor total is at
/// least the number of rows.
pub proof fn lemma_total_succs_ge(rows: Seq<Row>)
    requires
        rows_wf(rows),
    ensures
        total_succs(rows) >= rows.len(),
    decreases rows.len(),
{
    if rows.len() > 0 {
        assert(rows[rows.len() - 1].succs@.len() >= 1);
        assert forall|i: int| 0 <= i < rows.drop_last().len() implies {
            &&& succs_wf((#[trigger] rows.drop_last()[i]).succs@)
            &&& rows.drop_last()[i].succs@.len() >= 1
            &&& is_lower_letter(rows.drop_last()[i].c0)
            &&& is_lower_letter(rows.drop_last()[i].c1)
        } by {
            assert(rows.drop_last()[i] == rows[i]);
        }
        lemma_total_succs_ge(rows.drop_last());
    }
}

/// Raise the count of one start context by one, adding the context if it
/// is new.
fn bump_start(starts: &mut Vec<StartEntry>, c0: char, c1: char)
    requires
        starts_wf(old(starts)@),
        is_lower_letter(c0),
        is_lower_letter(c1),
        start_weight_of(old(starts)@, c0, c1) + 1 <= u64::MAX,
    ensures
        starts_wf(final(starts)@),
        forall|d0: char, d1: char|
            #[trigger] start_weight_of(final(starts)@, d0, d1) == start_weight_of(
                old(starts)@,
                d0,
                d1,
            ) + if d0 == c0 && d1 == c1 {
                1int
            } else {
                0
            },
{
    let ghost s0 = starts@;
    let mut i: usize = 0;
    while i < starts.len()
        invariant
            starts@ == s0,
            s0 == old(starts)@,
            starts_wf(s0),
            i <= s0.len(),
            start_weight_of(s0, c0, c1) + 1 <= u64::MAX,
            is_lower_letter(c0),
            is_lower_letter(c1),
            forall|j: int| 0 <= j < i ==> !((#[trigger] s0[j]).c0 == c0 && s0[j].c1 == c1),
        decreases starts.len() - i,
    {
        if starts[i].c0 == c0 && starts[i].c1 == c1 {
            proof {
                lemma_start_at(s0, i as int);
            }
            let wgt = starts[i].weight;
            let e = StartEntry { c0, c1, weight: wgt + 1 };
            starts[i] = e;
            proof {
                lemma_start_update(s0, i as int, e);
                let s2 = starts@;
                assert(s2 == s0.update(i as int, e));
                assert forall|a: int|
                    0 <= a < s2.len() implies (#[trigger] s2[a]).weight >= 1 && is_lower_letter(
                    s2[a].c0,
                ) && is_lower_letter(s2[a].c1) by {
                    if a != i {
                        assert(s2[a] == s0[a]);
                    }
                }
                assert forall|a: int, b: int|
                    0 <= a < b < s2.len() implies !((#[trigger] s2[a]).c0 == (#[trigger] s2[b]).c0
                    && s2[a].c1 == s2[b].c1) by {
                    assert(s2[a] == if a == i {
                        e
                    } else {
                        s0[a]
                    });
                    assert(s2[b] == if b == i {
                        e
                    } else {
                        s0[b]
                    });
                    assert(e.c0 == s0[i as int].c0 && e.c1 == s0[i as int].c1);
                }
                assert forall|d0: char, d1: char|
                    #[trigger] start_weight_of(s2, d0, d1) == start_weight_of(s0, d0, d1) + if d0
                        == c0 && d1 == c1 {
                        1int
                    } else {
                        0
                    } by {
                    assert(start_weight_of(s0.update(i as int, e), d0, d1) == if d0 == e.c0 && d1
                        == e.c1 {
                        e.weight as int
                    } else {
                        start_weight_of(s0, d0, d1)
                    });
                }
            }
            return ;
        }
        i = i + 1;
    }
    proof {
        lemma_start_absent(s0, c0, c1);
    }
    let e = StartEntry { c0, c1, weight: 1 };
    starts.push(e);
    proof {
        lemma_start_push(s0, e);
        let s2 = starts@;
        assert(s2 == s0.push(e));
        assert forall|a: int, b: int|
            0 <= a < b < s2.len() implies !((#[trigger] s2[a]).c0 == (#[trigger] s2[b]).c0
            && s2[a].c1 == s2[b].c1) by {
            if b < s0.len() {
                assert(s2[a] == s0[a] && s2[b] == s0[b]);
            } else {
                assert(s2[b] == e);
                assert(s2[a] == s0[a]);
            }
        }
        assert forall|a: int|
            0 <= a < s2.len() implies (#[trigger] s2[a]).weight >= 1 && is_lower_letter(s2[a].c0)
            && is_lower_letter(s2[a].c1) by {
            if a < s0.len() {
                assert(s2[a] == s0[a]);
            } else {
                assert(s2[a] == e);
            }
        }
        assert forall|d0: char, d1: char|
            #[trigger] start_weight_of(s2, d0, d1) == start_weight_of(s0, d0, d1) + if d0 == c0
                && d1 == c1 {
                1int
            } else {
                0
            } by {
            assert(start_weight_of(s0.push(e), d0, d1) == if d0 == e.c0 && d1 == e.c1 {
                e.weight as int
            } else {
                start_weight_of(s0, d0, d1)
            });
        }
    }
}

/// Raise the count of one transition by one, adding the successor — and
/// the context row if need be — when it is new. Returns whether a new
/// distinct successor entry came into being.
fn bump_transition(rows: &mut Vec<Row>, c0: char, c1: char, c2: char) -> (created: bool)
    requires
        rows_wf(old(rows)@),
        is_lower_letter(c0),
        is_lower_letter(c1),
        is_lower_letter(c2),
        trans_weight_of(old(rows)@, c0, c1, c2) + 1 <= u64::MAX,
    ensures
        rows_wf(final(rows)@),
        forall|d0: char, d1: char, d2: char|
            #[trigger] trans_weight_of(final(rows)@, d0, d1, d2) == trans_weight_of(
                old(rows)@,
                d0,
                d1,
                d2,
            ) + if d0 == c0 && d1 == c1 && d2 == c2 {
                1int
            } else {
                0
            },
        total_succs(final(rows)@) == total_succs(old(rows)@) + if created {
            1int
        } else {
            0
        },
{
    let ghost r0 = rows@;
    let mut i: usize = 0;
    while i < rows.len()
        invariant
            rows@ == r0,
            r0 == old(rows)@,
            rows_wf(r0),
            i <= r0.len(),
            trans_weight_of(r0, c0, c1, c2) + 1 <= u64::MAX,
            is_lower_letter(c0),
            is_lower_letter(c1),
            is_lower_letter(c2),
            forall|j: int| 0 <= j < i ==> !((#[trigger] r0[j]).c0 == c0 && r0[j].c1 == c1),
        decreases rows.len() - i,
    {
        if rows[i].c0 == c0 && rows[i].c1 == c1 {
            proof {
                lemma_rows_at(r0, i as int);
            }
            let ghost sc0 = r0[i as int].succs@;
            // Copy the successor list, then adjust or extend it.
            let row_ref = &rows[i];
            let mut ns: Vec<Succ> = Vec::new();
            let mut k: usize = 0;
            while k < row_ref.succs.len()
                invariant
                    k <= row_ref.succs@.len(),
                    row_ref.succs@ == sc0,
                    ns@.len() == k as int,
                    forall|t: int| 0 <= t < k ==> ns@[t] == sc0[t],
                decreases row_ref.succs.len() - k,
            {
                let s = &row_ref.succs[k];
                ns.push(Succ { ch: s.ch, weight: s.weight });
                k = k + 1;
            }
            proof {
                assert(ns@ =~= sc0);
            }
            let mut found: bool = false;
            let mut pos: usize = 0;
            let mut k2: usize = 0;
            while !found && k2 < ns.len()
                invariant
                    ns@ == sc0,
                    k2 <= sc0.len(),
                    !found ==> forall|t: int| 0 <= t < k2 ==> (#[trigger] sc0[t]).ch != c2,
                    found ==> pos < sc0.len() && sc0[pos as int].ch == c2,
                decreases ns.len() - k2 + (if found { 0int } else { 1 }),
            {
                if ns[k2].ch == c2 {
                    found = true;
                    pos = k2;
                } else {
                    k2 = k2 + 1;
                }
            }
            let created: bool;
            if found {
                proof {
                    assert(succs_wf(sc0));
                    lemma_succ_at(sc0, pos as int, c2);
                    assert(succ_weight_of(sc0, c2) == trans_weight_of(r0, c0, c1, c2));
                }
                let wgt = ns[pos].weight;
                let e = Succ { ch: c2, weight: wgt + 1 };
                ns[pos] = e;
                proof {
                    lemma_succ_update(sc0, pos as int, e);
                }
                created = false;
            } else {
                proof {
                    lemma_succ_absent(sc0, c2);
                }
                ns.push(Succ { ch: c2, weight: 1 });
                proof {
                    lemma_succ_push(sc0, Succ { ch: c2, weight: 1 });
                }
                created = true;
            }
            let ghost ns_view = ns@;
            proof {
                // The adjusted list stays well-formed.
                assert forall|a: int|
                    0 <= a < ns_view.len() implies (#[trigger] ns_view[a]).weight >= 1
                    && is_lower_letter(ns_view[a].ch) by {
                    if found {
                        if a != pos {
                            assert(ns_view[a] == sc0[a]);
                        }
                    } else {
                        if a < sc0.len() {
                            assert(ns_view[a] == sc0[a]);
                        }
                    }
                }
                assert forall|a: int, b: int|
                    0 <= a < b < ns_view.len() implies (#[trigger] ns_view[a]).ch
                    != (#[trigger] ns_view[b]).ch by {
                    if found {
                        assert(ns_view[a] == if a == pos {
                            Succ { ch: c2, weight: (sc0[pos as int].weight + 1) as u64 }
                        } else {
                            sc0[a]
                        });
                        assert(ns_view[b] == if b == pos {
                            Succ { ch: c2, weight: (sc0[pos as int].weight + 1) as u64 }
                        } else {
                            sc0[b]
                        });
                        assert(sc0[pos as int].ch == c2);
                    } else {
                        if b < sc0.len() {
                            assert(ns_view[a] == sc0[a] && ns_view[b] == sc0[b]);
                        } else {
                            assert(ns_view[b].ch == c2);
                            assert(ns_view[a] == sc0[a]);
                        }
                    }
                }
                assert(succs_wf(ns_view));
            }
            let new_row = Row { c0, c1, succs: ns };
            rows[i] = new_row;
            proof {
                let nr = Row { c0, c1, succs: ns };
                assert(rows@ == r0.update(i as int, nr));
                lemma_rows_update(r0, i as int, nr);
                let r2 = rows@;
                assert forall|a: int| 0 <= a < r2.len() implies {
                    &&& succs_wf((#[trigger] r2[a]).succs@)
                    &&& r2[a].succs@.len() >= 1
                    &&& is_lower_letter(r2[a].c0)
                    &&& is_lower_letter(r2[a].c1)
                } by {
                    if a != i {
                        assert(r2[a] == r0[a]);
                    }
                }
                assert forall|a: int, b: int|
                    0 <= a < b < r2.len() implies !((#[trigger] r2[a]).c0 == (#[trigger] r2[b]).c0
                    && r2[a].c1 == r2[b].c1) by {
                    assert(r2[a] == if a == i {
                        nr
                    } else {
                        r0[a]
                    });
                    assert(r2[b] == if b == i {
                        nr
                    } else {
                        r0[b]
                    });
                    assert(nr.c0 == r0[i as int].c0 && nr.c1 == r0[i as int].c1);
                }
                assert(rows_wf(r2));
            }
            return created;
        }
        i = i + 1;
    }
    proof {
        lemma_rows_absent(r0, c0, c1);
    }
    let mut ns: Vec<Succ> = Vec::new();
    ns.push(Succ { ch: c2, weight: 1 });
    let new_row = Row { c0, c1, succs: ns };
    rows.push(new_row);
    proof {
        let nr = rows@.last();
        assert(rows@ == r0.push(nr));
        lemma_rows_push(r0, nr);
        lemma_succ_push(Seq::<Succ>::empty(), Succ { ch: c2, weight: 1 });
        assert(succ_weight_of(Seq::<Succ>::empty(), c2) == 0);
        let r2 = rows@;
        assert forall|a: int| 0 <= a < r2.len() implies {
            &&& succs_wf((#[trigger] r2[a]).succs@)
            &&& r2[a].succs@.len() >= 1
            &&& is_lower_letter(r2[a].c0)
            &&& is_lower_letter(r2[a].c1)
        } by {
            if a < r0.len() {
                assert(r2[a] == r0[a]);
            } else {
                assert(r2[a] == nr);
            }
        }
        assert forall|a: int, b: int|
            0 <= a < b < r2.len() implies !((#[trigger] r2[a]).c0 == (#[trigger] r2[b]).c0
            && r2[a].c1 == r2[b].c1) by {
            if b < r0.len() {
                assert(r2[a] == r0[a] && r2[b] == r0[b]);
            } else {
                assert(r2[b] == nr);
                assert(r2[a] == r0[a]);
            }
        }
        assert(rows_wf(r2));
        assert forall|d0: char, d1: char, d2: char| #[trigger] trans_weight_of(r2, d0, d1, d2)
            == trans_weight_of(r0, d0, d1, d2) + if d0 == c0 && d1 == c1 && d2 == c2 {
            1int
        } else {
            0
        } by {
            if d0 == c0 && d1 == c1 {
                assert(trans_weight_of(r0, d0, d1, d2) == 0);
            }
        }
    }
    true
}

/// The transition model: start contexts, transition rows, and the average
/// branching factor kept as an exact rational with its fixed-point base-2
/// logarithm. Built once, read-only afterwards.
pub struct TransitionModel {
    pub starts: Vec<StartEntry>,
    pub rows: Vec<Row>,
    pub branch_num: u64,
    pub branch_den: u64,
    pub branch_millibits: u64,
}

impl TransitionModel {
    /// Structural soundness: one entry per context with positive counts
    /// over lowercase letters, and branching data consistent with the
    /// rows — the alphabet-sized default `26 / 1` for an empty model.
    pub open spec fn wf(self) -> bool {
        &&& starts_wf(self.starts@)
        &&& rows_wf(self.rows@)
        &&& 1 <= self.branch_den
        &&& self.branch_den <= self.branch_num
        &&& (self.rows@.len() == 0 ==> self.branch_num == 26 && self.branch_den == 1)
        &&& (self.rows@.len() > 0 ==> self.branch_num == total_succs(self.rows@)
            && self.branch_den == self.rows@.len())
        &&& self.branch_millibits < 64000
        &&& pow2((self.branch_millibits / 1000) as nat) * self.branch_den <= self.branch_num
        &&& self.branch_num < pow2((self.branch_millibits / 1000 + 1) as nat) * self.branch_den
        &&& (self.branch_num >= 2 * self.branch_den ==> self.branch_millibits >= 1000)
        &&& (self.branch_num == self.branch_den ==> self.branch_millibits == 0)
    }

    /// The model records exactly the start and trigram frequencies of the
    /// qualifying words of `corpus`.
    pub open spec fn built_from(self, corpus: Seq<char>) -> bool {
        &&& forall|c0: char, c1: char|
            #[trigger] start_weight_of(self.starts@, c0, c1) == count_starts(
                spec_corpus_words(corpus),
                c0,
                c1,
            )
        &&& forall|c0: char, c1: char, c2: char|
            #[trigger] trans_weight_of(self.rows@, c0, c1, c2) == count_trans(
                spec_corpus_words(corpus),
                c0,
                c1,
                c2,
            )
    }

    /// Build the model from the training corpus: one pass over its
    /// qualifying words, counting start contexts and trigram transitions,
    /// then the average branching factor.
    pub fn from_corpus(corpus: &Vec<char>) -> (r: TransitionModel)
        ensures
            r.wf(),
            r.built_from(corpus@),
    {
        let n_chars = corpus.len();
        let words = corpus_words(corpus);
        let ghost lines = spec_split(corpus@);
        let ghost ws = spec_corpus_words(corpus@);
        proof {
            lemma_qualifying_chars(lines);
            lemma_split_sum(corpus@);
            lemma_qualifying_sum(lines);
            lemma_sum_windows_le(ws);
            assert forall|a: int| 0 <= a < ws.len() implies (#[trigger] ws[a]).len() >= 3 by {
                assert(ws[a] == qualifying(lines)[a]);
            }
            assert forall|a: int, t: int|
                0 <= a < ws.len() && 0 <= t < ws[a].len() implies is_lower_letter(
                #[trigger] ws[a][t],
            ) by {
                assert(ws[a] == qualifying(lines)[a]);
                assert(qualifying(lines)[a][t] == ws[a][t]);
            }
        }
        let mut starts: Vec<StartEntry> = Vec::new();
        let mut rows: Vec<Row> = Vec::new();
        let mut distinct: u64 = 0;
        let mut i: usize = 0;
        proof {
            assert(ws.take(0) =~= Seq::<Seq<char>>::empty());
        }
        while i < words.len()
            invariant
                i <= words.len(),
                words@.len() == ws.len(),
                forall|j: int| 0 <= j < ws.len() ==> words@[j]@ == ws[j],
                ws == spec_corpus_words(corpus@),
                forall|a: int| 0 <= a < ws.len() ==> (#[trigger] ws[a]).len() >= 3,
                forall|a: int, t: int|
                    0 <= a < ws.len() && 0 <= t < ws[a].len() ==> is_lower_letter(
                        #[trigger] ws[a][t],
                    ),
                starts_wf(starts@),
                rows_wf(rows@),
                forall|c0: char, c1: char|
                    #[trigger] start_weight_of(starts@, c0, c1) == count_starts(
                        ws.take(i as int),
                        c0,
                        c1,
                    ),
                forall|c0: char, c1: char, c2: char|
                    #[trigger] trans_weight_of(rows@, c0, c1, c2) == count_trans(
                        ws.take(i as int),
                        c0,
                        c1,
                        c2,
                    ),
                distinct == total_succs(rows@),
                total_succs(rows@) <= sum_windows(ws.take(i as int)),
                sum_windows(ws) <= corpus@.len(),
                corpus@.len() == n_chars,
            decreases words.len() - i,
        {
            let w = &words[i];
            proof {
                assert(ws.take(i + 1).drop_last() =~= ws.take(i as int));
                assert(ws.take(i + 1).last() == ws[i as int]);
            }
            let c0 = w[0];
            let c1 = w[1];
            proof {
                lemma_count_starts_bounds(ws.take(i as int), c0, c1);
            }
            bump_start(&mut starts, c0, c1);
            proof {
                assert forall|d0: char, d1: char|
                    #[trigger] start_weight_of(starts@, d0, d1) == count_starts(
                    ws.take(i + 1),
                    d0,
                    d1,
                ) by {
                    assert(count_starts(ws.take(i + 1), d0, d1) == count_starts(
                        ws.take(i as int),
                        d0,
                        d1,
                    ) + if ws[i as int].len() >= 2 && ws[i as int][0] == d0 && ws[i as int][1]
                        == d1 {
                        1int
                    } else {
                        0
                    });
                }
            }
            let ghost rows_before = rows@;
            let w_len = w.len();
            let mut j: usize = 0;
            while j + 2 < w_len
                invariant
                    j + 2 <= w_len,
                    w_len == w@.len(),
                    w@ == ws[i as int],
                    0 <= i < ws.len(),
                    ws == spec_corpus_words(corpus@),
                    forall|a: int| 0 <= a < ws.len() ==> (#[trigger] ws[a]).len() >= 3,
                    forall|a: int, t: int|
                        0 <= a < ws.len() && 0 <= t < ws[a].len() ==> is_lower_letter(
                            #[trigger] ws[a][t],
                        ),
                    rows_wf(rows@),
                    forall|c0: char, c1: char, c2: char|
                        #[trigger] trans_weight_of(rows@, c0, c1, c2) == count_trans(
                            ws.take(i as int),
                            c0,
                            c1,
                            c2,
                        ) + count_tri_prefix(ws[i as int], j as int, c0, c1, c2),
                    distinct == total_succs(rows@),
                    total_succs(rows@) <= sum_windows(ws.take(i as int)) + j,
                    sum_windows(ws) <= corpus@.len(),
                    corpus@.len() == n_chars,
                decreases w_len - j,
            {
                let d0 = w[j];
                let d1 = w[j + 1];
                let d2 = w[j + 2];
                proof {
                    // The next count still fits: it is at most the total
                    // number of trigram positions of the whole corpus.
                    lemma_count_tri_prefix_bounds(ws[i as int], j as int, d0, d1, d2);
                    lemma_count_tri_prefix_mono(
                        ws[i as int],
                        j + 1,
                        ws[i as int].len() - 2,
                        d0,
                        d1,
                        d2,
                    );
                    lemma_counts_take(ws, i + 1, d0, d1, d2);
                    lemma_count_trans_bounds(ws, d0, d1, d2);
                    assert(ws.take(i + 1).drop_last() =~= ws.take(i as int));
                    assert(ws.take(i + 1).last() == ws[i as int]);
                    assert(count_trans(ws.take(i + 1), d0, d1, d2) == count_trans(
                        ws.take(i as int),
                        d0,
                        d1,
                        d2,
                    ) + count_tri(ws[i as int], d0, d1, d2));
                    assert(count_tri_prefix(ws[i as int], j + 1, d0, d1, d2) == count_tri_prefix(
                        ws[i as int],
                        j as int,
                        d0,
                        d1,
                        d2,
                    ) + 1);
                }
                let created = bump_transition(&mut rows, d0, d1, d2);
                proof {
                    assert forall|e0: char, e1: char, e2: char|
                        #[trigger] trans_weight_of(rows@, e0, e1, e2) == count_trans(
                        ws.take(i as int),
                        e0,
                        e1,
                        e2,
                    ) + count_tri_prefix(ws[i as int], j + 1, e0, e1, e2) by {
                        assert(count_tri_prefix(ws[i as int], j + 1, e0, e1, e2)
                            == count_tri_prefix(ws[i as int], j as int, e0, e1, e2) + if j + 2
                            < ws[i as int].len() && ws[i as int][j as int] == e0
                            && ws[i as int][j + 1] == e1 && ws[i as int][j + 2] == e2 {
                            1int
                        } else {
                            0
                        });
                    }
                    // One more window has been consumed.
                    lemma_counts_take(ws, i + 1, d0, d1, d2);
                }
                if created {
                    distinct = distinct + 1;
                }
                j = j + 1;
            }
            proof {
                assert(j == ws[i as int].len() - 2);
                assert forall|c0: char, c1: char, c2: char|
                    #[trigger] trans_weight_of(rows@, c0, c1, c2) == count_trans(
                    ws.take(i + 1),
                    c0,
                    c1,
                    c2,
                ) by {
                    assert(count_trans(ws.take(i + 1), c0, c1, c2) == count_trans(
                        ws.take(i as int),
                        c0,
                        c1,
                        c2,
                    ) + count_tri(ws[i as int], c0, c1, c2));
                }
                assert(sum_windows(ws.take(i + 1)) == sum_windows(ws.take(i as int)) + (
                ws[i as int].len() - 2));
            }
            i = i + 1;
        }
        proof {
            assert(ws.take(words@.len() as int) =~= ws);
        }

        // Average branching factor: distinct successors over contexts,
        // defaulting to the alphabet size for an empty model.
        let branch_num: u64;
        let branch_den: u64;
        if rows.len() == 0 {
            branch_num = 26;
            branch_den = 1;
        } else {
            proof {
                lemma_total_succs_ge(rows@);
            }
            branch_num = distinct;
            branch_den = rows.len() as u64;
        }
        let branch_millibits = log2_milli(branch_num, branch_den);
        TransitionModel { starts, rows, branch_num, branch_den, branch_millibits }
    }

    /// The recorded weight of a start context; zero when absent.
    pub fn start_weight(&self, c0: char, c1: char) -> (r: u64)
        requires
            self.wf(),
        ensures
            r as int == start_weight_of(self.starts@, c0, c1),
    {
        let mut i: usize = 0;
        while i < self.starts.len()
            invariant
                i <= self.starts@.len(),
                starts_wf(self.starts@),
                forall|j: int|
                    0 <= j < i ==> !((#[trigger] self.starts@[j]).c0 == c0 && self.starts@[j].c1
                        == c1),
            decreases self.starts.len() - i,
        {
            if self.starts[i].c0 == c0 && self.starts[i].c1 == c1 {
                proof {
                    lemma_start_at(self.starts@, i as int);
                }
                return self.starts[i].weight;
            }
            i = i + 1;
        }
        proof {
            lemma_start_absent(self.starts@, c0, c1);
        }
        0
    }

    /// The recorded weight of a transition; zero when absent.
    pub fn transition_weight(&self, c0: char, c1: char, c2: char) -> (r: u64)
        requires
            self.wf(),
        ensures
            r as int == trans_weight_of(self.rows@, c0, c1, c2),
    {
        let mut i: usize = 0;
        while i < self.rows.len()
            invariant
                i <= self.rows@.len(),
                rows_wf(self.rows@),
                forall|j: int|
                    0 <= j < i ==> !((#[trigger] self.rows@[j]).c0 == c0 && self.rows@[j].c1 == c1),
            decreases self.rows.len() - i,
        {
            if self.rows[i].c0 == c0 && self.rows[i].c1 == c1 {
                proof {
                    lemma_rows_at(self.rows@, i as int);
                }
                let row = &self.rows[i];
                let mut k: usize = 0;
                while k < row.succs.len()
                    invariant
                        k <= row.succs@.len(),
                        succs_wf(row.succs@),
                        row.succs@ == self.rows@[i as int].succs@,
                        0 <= i < self.rows@.len(),
                        rows_wf(self.rows@),
                        self.rows@[i as int].c0 == c0,
                        self.rows@[i as int].c1 == c1,
                        forall|t: int|
                            0 <= t < k ==> (#[trigger] row.succs@[t]).ch != c2,
                        forall|e2: char|
                            trans_weight_of(self.rows@, c0, c1, e2) == succ_weight_of(
                                row.succs@,
                                e2,
                            ),
                    decreases row.succs.len() - k,
                {
                    if row.succs[k].ch == c2 {
                        proof {
                            lemma_succ_at(row.succs@, k as int, c2);
                        }
                        return row.succs[k].weight;
                    }
                    k = k + 1;
                }
                proof {
                    lemma_succ_absent(row.succs@, c2);
                }
                return 0;
            }
            i = i + 1;
        }
        proof {
            lemma_rows_absent(self.rows@, c0, c1);
        }
        0
    }

    /// Number of distinct contexts in the model.
    pub fn context_count(&self) -> (r: usize)
        ensures
            r == self.rows@.len(),
    {
        self.rows.len()
    }
}

} // verus!
