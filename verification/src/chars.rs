//! Character classification and case folding.
//!
//! The corpus, the transition model and the generated passwords all work
//! over ASCII letters; these predicates define what counts as a letter, a
//! vowel and a consonant, and how a single character is case folded.

use vstd::prelude::*;

verus! {

/// An ASCII lowercase letter `a`..`z`.
pub open spec fn is_lower_letter(c: char) -> bool {
    'a' <= c && c <= 'z'
}

/// An ASCII uppercase letter `A`..`Z`.
pub open spec fn is_upper_letter(c: char) -> bool {
    'A' <= c && c <= 'Z'
}

/// An ASCII letter of either case.
pub open spec fn is_letter(c: char) -> bool {
    is_lower_letter(c) || is_upper_letter(c)
}

/// An ASCII decimal digit.
pub open spec fn is_digit_char(c: char) -> bool {
    '0' <= c && c <= '9'
}

/// Case folding of a single character: uppercase ASCII letters map to their
/// lowercase counterpart, everything else is unchanged.
pub open spec fn fold_lower(c: char) -> char {
    if is_upper_letter(c) {
        ((c as u32) + 32) as char
    } else {
        c
    }
}

/// The reverse mapping used when capitalising: lowercase ASCII letters map
/// to their uppercase counterpart, everything else is unchanged.
pub open spec fn raise_upper(c: char) -> char {
    if is_lower_letter(c) {
        ((c as u32) - 32) as char
    } else {
        c
    }
}

/// One of the five vowels, after case folding.
pub open spec fn is_vowel(c: char) -> bool {
    fold_lower(c) == 'a' || fold_lower(c) == 'e' || fold_lower(c) == 'i'
        || fold_lower(c) == 'o' || fold_lower(c) == 'u'
}

/// A letter that is not a vowel, after case folding.
pub open spec fn is_consonant(c: char) -> bool {
    is_letter(c) && !is_vowel(c)
}

/// Folding a letter of either case yields a lowercase letter.
pub proof fn lemma_fold_lower_letter(c: char)
    requires
        is_letter(c),
    ensures
        is_lower_letter(fold_lower(c)),
{
    if is_upper_letter(c) {
        assert(65 <= c as u32 <= 90);
        assert(fold_lower(c) == ((c as u32) + 32) as char);
        assert(97 <= ((c as u32) + 32) <= 122);
    }
}

/// Capitalising a lowercase letter yields an uppercase letter.
pub proof fn lemma_raise_upper_letter(c: char)
    requires
        is_lower_letter(c),
    ensures
        is_upper_letter(raise_upper(c)),
{
    assert(97 <= c as u32 <= 122);
    assert(raise_upper(c) == ((c as u32) - 32) as char);
    assert(65 <= ((c as u32) - 32) <= 90);
}

/// Runtime test for an ASCII letter.
pub fn letter(c: char) -> (r: bool)
    ensures
        r == is_letter(c),
{
    ('a' <= c && c <= 'z') || ('A' <= c && c <= 'Z')
}

/// Runtime case folding to lowercase.
pub fn lower(c: char) -> (r: char)
    ensures
        r == fold_lower(c),
{
    if 'A' <= c && c <= 'Z' {
        (((c as u32) + 32) as u8) as char
    } else {
        c
    }
}

/// Runtime capitalisation of a single character.
pub fn upper(c: char) -> (r: char)
    ensures
        r == raise_upper(c),
{
    if 'a' <= c && c <= 'z' {
        (((c as u32) - 32) as u8) as char
    } else {
        c
    }
}

/// Runtime test for one of the five vowels, case-insensitive.
pub fn is_ascii_vowel(c: char) -> (r: bool)
    ensures
        r == is_vowel(c),
{
    let f = lower(c);
    f == 'a' || f == 'e' || f == 'i' || f == 'o' || f == 'u'
}

} // verus!
