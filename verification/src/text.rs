//! Character sequences: conversion, comparison and normalization.

use vstd::prelude::*;
use vstd::string::*;

verus! {

/// The ASCII transliteration that `unidecode::unidecode` gives for a string.
pub uninterp spec fn unidecode_of(s: Seq<char>) -> Seq<char>;

/// Calls `unidecode::unidecode` on the characters of `s`.
///
/// Trusted: the result is the crate's transliteration of `s`, which depends
/// on the characters of `s` alone (a table lookup for each of them).
#[verifier::external_body]
pub(crate) fn transliterate(s: &Vec<char>) -> (r: Vec<char>)
    ensures
        r@ == unidecode_of(s@),
{
    let owned: String = s.iter().collect();
    unidecode::unidecode(&owned).chars().collect()
}

/// Calls `String::push`.
///
/// Trusted: the string afterwards is the string before with `c` at its end.
#[verifier::external_body]
fn push_char(s: &mut String, c: char)
    ensures
        final(s)@ == old(s)@.push(c),
{
    s.push(c)
}

/// The characters of a string slice.
pub fn chars_of(s: &str) -> (r: Vec<char>)
    ensures
        r@ == s@,
{
    let n: usize = s.unicode_len();
    let mut out: Vec<char> = Vec::new();
    let mut i: usize = 0;
    while i < n
        invariant
            n == s@.len(),
            i <= n,
            out@ == s@.take(i as int),
        decreases n - i,
    {
        out.push(s.get_char(i));
        i += 1;
        assert(out@ =~= s@.take(i as int));
    }
    assert(s@.take(n as int) =~= s@);
    out
}

/// The string made of the characters of `v`.
pub fn string_of(v: &Vec<char>) -> (r: String)
    ensures
        r@ == v@,
{
    let mut out = String::new();
    let mut i: usize = 0;
    while i < v.len()
        invariant
            i <= v@.len(),
            out@ == v@.take(i as int),
        decreases v@.len() - i,
    {
        push_char(&mut out, v[i]);
        i += 1;
        assert(out@ =~= v@.take(i as int));
    }
    assert(v@.take(v@.len() as int) =~= v@);
    out
}

/// Whether two character vectors hold the same text.
pub fn same_chars(a: &Vec<char>, b: &Vec<char>) -> (r: bool)
    ensures
        r == (a@ == b@),
{
    if a.len() != b.len() {
        return false;
    }
    let mut i: usize = 0;
    while i < a.len()
        invariant
            a@.len() == b@.len(),
            i <= a@.len(),
            a@.take(i as int) == b@.take(i as int),
        decreases a@.len() - i,
    {
        if a[i] != b[i] {
            return false;
        }
        i += 1;
        assert(a@.take(i as int) =~= a@.take(i - 1).push(a@[i - 1]));
        assert(b@.take(i as int) =~= b@.take(i - 1).push(b@[i - 1]));
    }
    assert(a@.take(a@.len() as int) =~= a@);
    assert(b@.take(b@.len() as int) =~= b@);
    true
}

/// Whether `a` spells the word `word`.
pub fn is_word(a: &Vec<char>, word: &str) -> (r: bool)
    ensures
        r == (a@ == word@),
{
    let w = chars_of(word);
    same_chars(a, &w)
}

/// Appends `piece` to `out`.
pub fn append_chars(out: &mut Vec<char>, piece: &Vec<char>)
    ensures
        final(out)@ == old(out)@ + piece@,
{
    let mut i: usize = 0;
    while i < piece.len()
        invariant
            i <= piece@.len(),
            out@ == old(out)@ + piece@.take(i as int),
        decreases piece@.len() - i,
    {
        out.push(piece[i]);
        i += 1;
        assert(out@ =~= old(out)@ + piece@.take(i as int));
    }
    assert(piece@.take(piece@.len() as int) =~= piece@);
}

/// Appends the characters of `word` to `out`.
pub fn append_str(out: &mut Vec<char>, word: &str)
    ensures
        final(out)@ == old(out)@ + word@,
{
    let w = chars_of(word);
    append_chars(out, &w);
}

/// The characters that whitespace normalization treats as blank.
pub open spec fn is_blank(c: char) -> bool {
    c == ' ' || c == '\t' || c == '\n' || c == '\r' || c == '\u{0B}' || c == '\u{0C}'
}

/// Whether `c` is one of the blank characters.
pub fn blank(c: char) -> (r: bool)
    ensures
        r == is_blank(c),
{
    c == ' ' || c == '\t' || c == '\n' || c == '\r' || c == '\u{0B}' || c == '\u{0C}'
}

/// `s` with every maximal run of blank characters replaced by one space.
pub open spec fn collapsed(s: Seq<char>) -> Seq<char>
    decreases s.len(),
{
    if s.len() == 0 {
        s
    } else if !is_blank(s.last()) {
        collapsed(s.drop_last()).push(s.last())
    } else if s.len() >= 2 && is_blank(s[s.len() - 2]) {
        collapsed(s.drop_last())
    } else {
        collapsed(s.drop_last()).push(' ')
    }
}

/// Replaces every maximal run of blank characters in `s` by one space.
pub fn collapse_blanks(s: &Vec<char>) -> (r: Vec<char>)
    ensures
        r@ == collapsed(s@),
{
    let mut out: Vec<char> = Vec::new();
    let mut in_run = false;
    let mut i: usize = 0;
    while i < s.len()
        invariant
            i <= s@.len(),
            out@ == collapsed(s@.take(i as int)),
            in_run == (i > 0 && is_blank(s@[i - 1])),
        decreases s@.len() - i,
    {
        let c = s[i];
        let b = blank(c);
        proof {
            let t = s@.take(i + 1);
            assert(t.drop_last() =~= s@.take(i as int));
            assert(t.last() == c);
            if i > 0 {
                assert(t[t.len() - 2] == s@[i - 1]);
            }
        }
        if !b {
            out.push(c);
        } else if !in_run {
            out.push(' ');
        }
        in_run = b;
        i += 1;
    }
    assert(s@.take(s@.len() as int) =~= s@);
    out
}

/// A collapsed text holds no two blank characters in a row.
pub proof fn lemma_collapsed_has_no_runs(s: Seq<char>, i: int)
    requires
        0 <= i,
        i + 1 < collapsed(s).len(),
    ensures
        !(is_blank(collapsed(s)[i]) && is_blank(collapsed(s)[i + 1])),
    decreases s.len(),
{
    lemma_collapsed_end(s);
    if s.len() > 0 {
        let head = collapsed(s.drop_last());
        lemma_collapsed_end(s.drop_last());
        if i + 1 < head.len() {
            lemma_collapsed_has_no_runs(s.drop_last(), i);
        }
    }
}

/// A collapsed text ends in a blank exactly when the text does.
pub proof fn lemma_collapsed_end(s: Seq<char>)
    ensures
        s.len() == 0 <==> collapsed(s).len() == 0,
        s.len() > 0 ==> (is_blank(collapsed(s).last()) <==> is_blank(s.last())),
    decreases s.len(),
{
    if s.len() > 0 {
        lemma_collapsed_end(s.drop_last());
    }
}

} // verus!
