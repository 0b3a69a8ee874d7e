//! How document text is matched against a query term.
//!
//! Text is a byte string. A word is a maximal run of word bytes: ASCII
//! letters and digits, and every byte of a multi-byte UTF-8 character. A
//! term occurs in a text once for every word of the text that equals it,
//! with or without regard to ASCII letter case.

use vstd::prelude::*;

verus! {

/// ASCII letters and digits, and all bytes from 0x80 up.
pub open spec fn is_word_byte(b: u8) -> bool {
    ||| 0x30 <= b <= 0x39
    ||| 0x41 <= b <= 0x5a
    ||| 0x61 <= b <= 0x7a
    ||| b >= 0x80
}

/// Maps ASCII upper-case letters to lower case and leaves other bytes.
pub open spec fn lower(b: u8) -> u8 {
    if 0x41 <= b <= 0x5a {
        (b + 0x20) as u8
    } else {
        b
    }
}

/// Whether two bytes count as the same letter.
pub open spec fn same_byte(a: u8, b: u8, case_sensitive: bool) -> bool {
    if case_sensitive {
        a == b
    } else {
        lower(a) == lower(b)
    }
}

/// A query term: one word, not empty.
pub open spec fn is_term(term: Seq<u8>) -> bool {
    term.len() > 0 && forall|j: int| 0 <= j < term.len() ==> is_word_byte(#[trigger] term[j])
}

/// A word of `text` begins at `i`.
pub open spec fn word_starts_at(text: Seq<u8>, i: int) -> bool {
    &&& 0 <= i < text.len()
    &&& is_word_byte(text[i])
    &&& i == 0 || !is_word_byte(text[i - 1])
}

/// The bytes of `text` from `i` on spell `term`.
pub open spec fn spells(text: Seq<u8>, term: Seq<u8>, i: int, case_sensitive: bool) -> bool {
    &&& 0 <= i
    &&& i + term.len() <= text.len()
    &&& forall|j: int|
        0 <= j < term.len() ==> same_byte(#[trigger] text[i + j], term[j], case_sensitive)
}

/// The word of `text` that begins at `i` is `term`.
pub open spec fn term_at(text: Seq<u8>, term: Seq<u8>, i: int, case_sensitive: bool) -> bool {
    &&& word_starts_at(text, i)
    &&& spells(text, term, i, case_sensitive)
    &&& i + term.len() == text.len() || !is_word_byte(text[i + term.len()])
}

/// Number of positions below `n` at which `term` occurs as a word.
pub open spec fn occurrences_before(
    text: Seq<u8>,
    term: Seq<u8>,
    n: int,
    case_sensitive: bool,
) -> nat
    decreases n,
{
    if n <= 0 {
        0
    } else {
        occurrences_before(text, term, n - 1, case_sensitive) + if term_at(
            text,
            term,
            n - 1,
            case_sensitive,
        ) {
            1nat
        } else {
            0nat
        }
    }
}

/// Number of words of `text` that equal `term`.
pub open spec fn occurrences(text: Seq<u8>, term: Seq<u8>, case_sensitive: bool) -> nat {
    occurrences_before(text, term, text.len() as int, case_sensitive)
}

/// The count below `n` is above zero exactly when the term occurs as a
/// word at some position below `n`.
pub proof fn lemma_counted_iff_occurs(text: Seq<u8>, term: Seq<u8>, n: int, case_sensitive: bool)
    ensures
        occurrences_before(text, term, n, case_sensitive) > 0 <==> exists|i: int|
            0 <= i < n && term_at(text, term, i, case_sensitive),
    decreases n,
{
    if n > 0 {
        lemma_counted_iff_occurs(text, term, n - 1, case_sensitive);
    }
}

/// A text matches a term exactly when the term is one of its words.
pub proof fn lemma_matches_iff_word(text: Seq<u8>, term: Seq<u8>, case_sensitive: bool)
    ensures
        occurrences(text, term, case_sensitive) > 0 <==> exists|i: int|
            0 <= i < text.len() && term_at(text, term, i, case_sensitive),
{
    lemma_counted_iff_occurs(text, term, text.len() as int, case_sensitive);
}

/// Tests one byte for being part of a word.
pub fn word_byte(b: u8) -> (r: bool)
    ensures
        r == is_word_byte(b),
{
    (0x30 <= b && b <= 0x39) || (0x41 <= b && b <= 0x5a) || (0x61 <= b && b <= 0x7a) || b >= 0x80
}

/// Lower-cases one byte.
pub fn lower_byte(b: u8) -> (r: u8)
    ensures
        r == lower(b),
{
    if 0x41 <= b && b <= 0x5a {
        b + 0x20
    } else {
        b
    }
}

/// Whether `term` is a well-formed query term.
pub fn check_term(term: &[u8]) -> (ok: bool)
    ensures
        ok == is_term(term@),
{
    if term.len() == 0 {
        return false;
    }
    let mut j: usize = 0;
    while j < term.len()
        invariant
            j <= term@.len(),
            forall|k: int| 0 <= k < j ==> is_word_byte(#[trigger] term@[k]),
        decreases term@.len() - j,
    {
        if !word_byte(term[j]) {
            return false;
        }
        j = j + 1;
    }
    true
}

/// Whether the word of `text` that begins at `i` is `term`.
pub fn matches_at(text: &[u8], term: &[u8], i: usize, case_sensitive: bool) -> (hit: bool)
    ensures
        hit == term_at(text@, term@, i as int, case_sensitive),
{
    let n: usize = text.len();
    let m: usize = term.len();
    if i >= n || !word_byte(text[i]) {
        return false;
    }
    if i > 0 && word_byte(text[i - 1]) {
        return false;
    }
    if m > n - i {
        return false;
    }
    let mut j: usize = 0;
    while j < m
        invariant
            n == text@.len(),
            m == term@.len(),
            i < n,
            m <= n - i,
            j <= m,
            forall|k: int| 0 <= k < j ==> same_byte(#[trigger] text@[i + k], term@[k], case_sensitive),
        decreases m - j,
    {
        let a: u8 = text[i + j];
        let b: u8 = term[j];
        let same: bool = if case_sensitive {
            a == b
        } else {
            lower_byte(a) == lower_byte(b)
        };
        if !same {
            return false;
        }
        j = j + 1;
    }
    i + m == n || !word_byte(text[i + m])
}

/// Counts the words of `text` that equal `term`.
pub fn count_occurrences(text: &[u8], term: &[u8], case_sensitive: bool) -> (count: usize)
    ensures
        count == occurrences(text@, term@, case_sensitive),
{
    let n: usize = text.len();
    let mut count: usize = 0;
    let mut i: usize = 0;
    while i < n
        invariant
            n == text@.len(),
            i <= n,
            count == occurrences_before(text@, term@, i as int, case_sensitive),
            count <= i,
        decreases n - i,
    {
        if matches_at(text, term, i, case_sensitive) {
            count = count + 1;
        }
        i = i + 1;
    }
    count
}

} // verus!
