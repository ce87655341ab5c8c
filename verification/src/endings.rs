//! The rules for the end of a word: a final vowel and consonant, where the
//! consonant is dropped and the vowel marked, and the endings `-ado`,
//! `-ada`, `-ido` with their plurals.
//!
//! Each rule takes a whole word. Its exception table comes first. Where the
//! word has fewer clusters than the rule reads, or its vowel is none that
//! the tables know, the word is returned unchanged.

use crate::case::{
    apply_case, circumflex, grapheme_clusters, grapheme_len, grapheme_slice, join, keep_case,
    tilde, to_lower, with_acute, with_circumflex,
};
use crate::defs::{
    ending_vowel, excepted, exception_for, is_acute_vowel, is_acute_vowel_char, marked_vowel,
    EndingTable, WORDEND_CONST_RULES_EXCEPT, WORDEND_D_INTERVOWEL_RULES_EXCEPT,
    WORDEND_D_RULES_EXCEPT, WORDEND_S_RULES_EXCEPT,
};
use crate::text::{chars_of, copy_range, push_all, spells, views};
use crate::unicode::{graphemes, lowercase};
use vstd::prelude::*;

verus! {

/// Some character of `text` is a lowercase vowel with an acute accent.
pub open spec fn has_acute(text: Seq<char>) -> bool {
    exists|i: int| 0 <= i < text.len() && is_acute_vowel(#[trigger] text[i])
}

/// The part of a word before its ending carries a written accent, in
/// either case.
pub open spec fn is_stressed(prefix: Seq<char>) -> bool {
    has_acute(lowercase(prefix))
}

/// Whether the part of a word before its ending carries a written accent.
pub fn stressed(prefix: &Vec<char>) -> (r: bool)
    ensures
        r == is_stressed(prefix@),
{
    let lower = to_lower(prefix);
    let mut i: usize = 0;
    while i < lower.len()
        invariant
            i <= lower.len(),
            lower@ == lowercase(prefix@),
            forall|j: int| 0 <= j < i ==> !is_acute_vowel(#[trigger] lower@[j]),
        decreases lower.len() - i,
    {
        if is_acute_vowel_char(lower[i]) {
            assert(is_acute_vowel(lower@[i as int]));
            return true;
        }
        i += 1;
    }
    false
}

/// The lowercase form of `vowel` is `a` or `e`, plain or accented.
pub open spec fn is_open_vowel(vowel: Seq<char>) -> bool {
    let v = lowercase(vowel);
    v == "a"@ || v == "e"@ || v == "á"@ || v == "é"@
}

/// The lowercase form of `vowel` is a vowel with an acute accent.
pub open spec fn is_accented(vowel: Seq<char>) -> bool {
    let v = lowercase(vowel);
    v == "á"@ || v == "é"@ || v == "í"@ || v == "ó"@ || v == "ú"@
}

/// Whether the lowercase form of `vowel` is `a` or `e`, plain or accented.
fn open_vowel(vowel: &Vec<char>) -> (r: bool)
    ensures
        r == is_open_vowel(vowel@),
{
    let v = to_lower(vowel);
    spells(&v, "a") || spells(&v, "e") || spells(&v, "á") || spells(&v, "é")
}

/// Whether the lowercase form of `vowel` carries an acute accent.
fn accented(vowel: &Vec<char>) -> (r: bool)
    ensures
        r == is_accented(vowel@),
{
    let v = to_lower(vowel);
    spells(&v, "á") || spells(&v, "é") || spells(&v, "í") || spells(&v, "ó") || spells(&v, "ú")
}

/// A word whose last two clusters are a vowel and a consonant, with the
/// vowel marked as `table` says and the consonant dropped, or turned into
/// an `h` of its own case where `keep_h` holds.
pub open spec fn marked_ending(word: Seq<char>, table: EndingTable, keep_h: bool) -> Seq<char> {
    let n = grapheme_len(word) as int;
    if n < 2 {
        word
    } else {
        let h = if keep_h {
            apply_case("h"@, grapheme_slice(word, n - 1, n))
        } else {
            Seq::empty()
        };
        match ending_vowel(table, grapheme_slice(word, n - 2, n - 1)) {
            Some(m) => grapheme_slice(word, 0, n - 2) + m + h,
            None => word,
        }
    }
}

/// Marks the last vowel of a word and drops or aspirates its last
/// consonant.
fn mark_ending(word: &Vec<char>, clusters: &Vec<Vec<char>>, table: EndingTable, keep_h: bool) -> (r:
    Vec<char>)
    requires
        views(clusters@) == graphemes(word@),
    ensures
        r@ == marked_ending(word@, table, keep_h),
{
    let n = clusters.len();
    if n < 2 {
        let out = copy_range(word, 0, word.len());
        assert(out@ =~= word@);
        return out;
    }
    let vowel = join(clusters, n - 2, n - 1);
    match marked_vowel(table, &vowel) {
        Some(m) => {
            let mut out = join(clusters, 0, n - 2);
            push_all(&mut out, &m);
            if keep_h {
                let last = join(clusters, n - 1, n);
                let h = keep_case(&chars_of("h"), &last);
                push_all(&mut out, &h);
            }
            assert(out@ =~= marked_ending(word@, table, keep_h));
            out
        },
        None => {
            let out = copy_range(word, 0, word.len());
            assert(out@ =~= word@);
            out
        },
    }
}

/// A word in vowel and `d`. Stressed earlier: the vowel takes a circumflex
/// and the `d` falls. Else an `a` or `e` takes the acute accent and the `d`
/// falls; any other vowel takes a circumflex and the `d` becomes `h`.
pub open spec fn ending_d(word: Seq<char>) -> Seq<char> {
    let n = grapheme_len(word) as int;
    if excepted(WORDEND_D_RULES_EXCEPT@, word).is_some() {
        excepted(WORDEND_D_RULES_EXCEPT@, word).unwrap()
    } else if n < 2 {
        word
    } else if is_stressed(grapheme_slice(word, 0, n - 2)) {
        marked_ending(word, EndingTable::DUnstress, false)
    } else if is_open_vowel(grapheme_slice(word, n - 2, n - 1)) {
        marked_ending(word, EndingTable::DStress, false)
    } else {
        marked_ending(word, EndingTable::DStress, true)
    }
}

/// Rewrites a word in vowel and `d`.
pub fn rewrite_ending_d(word: &Vec<char>) -> (r: Vec<char>)
    ensures
        r@ == ending_d(word@),
{
    if let Some(w) = exception_for(WORDEND_D_RULES_EXCEPT.as_slice(), word) {
        return w;
    }
    let clusters = grapheme_clusters(word);
    let n = clusters.len();
    if n < 2 {
        return mark_ending(word, &clusters, EndingTable::DStress, false);
    }
    let prefix = join(&clusters, 0, n - 2);
    let vowel = join(&clusters, n - 2, n - 1);
    if stressed(&prefix) {
        mark_ending(word, &clusters, EndingTable::DUnstress, false)
    } else if open_vowel(&vowel) {
        mark_ending(word, &clusters, EndingTable::DStress, false)
    } else {
        mark_ending(word, &clusters, EndingTable::DStress, true)
    }
}

/// A word in vowel and `s`: the vowel takes a circumflex; the `s` becomes
/// `h` after an accented vowel and falls after a plain one.
pub open spec fn ending_s(word: Seq<char>) -> Seq<char> {
    let n = grapheme_len(word) as int;
    if excepted(WORDEND_S_RULES_EXCEPT@, word).is_some() {
        excepted(WORDEND_S_RULES_EXCEPT@, word).unwrap()
    } else if n < 2 {
        word
    } else if is_accented(grapheme_slice(word, n - 2, n - 1)) {
        marked_ending(word, EndingTable::S, true)
    } else {
        marked_ending(word, EndingTable::S, false)
    }
}

/// Rewrites a word in vowel and `s`.
pub fn rewrite_ending_s(word: &Vec<char>) -> (r: Vec<char>)
    ensures
        r@ == ending_s(word@),
{
    if let Some(w) = exception_for(WORDEND_S_RULES_EXCEPT.as_slice(), word) {
        return w;
    }
    let clusters = grapheme_clusters(word);
    let n = clusters.len();
    if n < 2 {
        return mark_ending(word, &clusters, EndingTable::S, false);
    }
    let vowel = join(&clusters, n - 2, n - 1);
    if accented(&vowel) {
        mark_ending(word, &clusters, EndingTable::S, true)
    } else {
        mark_ending(word, &clusters, EndingTable::S, false)
    }
}

/// A word in vowel and a consonant other than `d` and `s`: the vowel takes
/// a circumflex; the consonant falls in a word stressed earlier and
/// becomes `h` otherwise.
pub open spec fn ending_cons(word: Seq<char>) -> Seq<char> {
    let n = grapheme_len(word) as int;
    if excepted(WORDEND_CONST_RULES_EXCEPT@, word).is_some() {
        excepted(WORDEND_CONST_RULES_EXCEPT@, word).unwrap()
    } else if n < 2 {
        word
    } else if is_stressed(grapheme_slice(word, 0, n - 2)) {
        marked_ending(word, EndingTable::Cons, false)
    } else {
        marked_ending(word, EndingTable::Cons, true)
    }
}

/// Rewrites a word in vowel and a consonant other than `d` and `s`.
pub fn rewrite_ending_cons(word: &Vec<char>) -> (r: Vec<char>)
    ensures
        r@ == ending_cons(word@),
{
    if let Some(w) = exception_for(WORDEND_CONST_RULES_EXCEPT.as_slice(), word) {
        return w;
    }
    let clusters = grapheme_clusters(word);
    let n = clusters.len();
    if n < 2 {
        return mark_ending(word, &clusters, EndingTable::Cons, false);
    }
    let prefix = join(&clusters, 0, n - 2);
    if stressed(&prefix) {
        mark_ending(word, &clusters, EndingTable::Cons, false)
    } else {
        mark_ending(word, &clusters, EndingTable::Cons, true)
    }
}

/// A word in vowel and `ps`: in a word stressed earlier the vowel takes a
/// circumflex and `ps` falls; any other word stays as it is.
pub open spec fn ending_ps(word: Seq<char>) -> Seq<char> {
    let n = grapheme_len(word) as int;
    if n >= 3 && is_stressed(grapheme_slice(word, 0, n - 3)) {
        grapheme_slice(word, 0, n - 3) + with_circumflex(grapheme_slice(word, n - 3, n - 2))
    } else {
        word
    }
}

/// Rewrites a word in vowel and `ps`.
pub fn rewrite_ending_ps(word: &Vec<char>) -> (r: Vec<char>)
    ensures
        r@ == ending_ps(word@),
{
    let clusters = grapheme_clusters(word);
    let n = clusters.len();
    if n >= 3 {
        let mut out = join(&clusters, 0, n - 3);
        if stressed(&out) {
            let vowel = join(&clusters, n - 3, n - 2);
            let marked = circumflex(&vowel);
            push_all(&mut out, &marked);
            return out;
        }
    }
    let out = copy_range(word, 0, word.len());
    assert(out@ =~= word@);
    out
}

/// The number of clusters of a word without its final `s`, if it has one.
pub open spec fn stem_len(word: Seq<char>) -> int {
    let n = grapheme_len(word) as int;
    let last = grapheme_slice(word, n - 1, n);
    if n >= 1 && (last == "s"@ || last == "S"@) {
        n - 1
    } else {
        n
    }
}

/// The last three clusters of the stem of a word, and its final `s` if it
/// has one.
pub open spec fn tail(word: Seq<char>) -> Seq<char> {
    let n = grapheme_len(word) as int;
    grapheme_slice(word, stem_len(word) - 3, n)
}

/// A word in `-ado`, `-ada`, `-ido`, `-ida` or a plural of these. A word
/// stressed before the ending stays as it is. Else, by the lowercase form
/// of the ending: `ada` becomes `á`; `adas` becomes `âh`; `ado` loses its
/// `d`; `ados`, `idos` and `ídos` lose `d` and `s`, the first vowel takes
/// the acute accent and the second a circumflex; `idas` keeps its `d` and
/// ends in `â`; `ido` and `ído` become `ío`. Any other ending stays.
pub open spec fn inter_d(word: Seq<char>) -> Seq<char> {
    let n = grapheme_len(word) as int;
    let m = stem_len(word);
    let prefix = grapheme_slice(word, 0, m - 3);
    let vowel_a = grapheme_slice(word, m - 3, m - 2);
    let d = grapheme_slice(word, m - 2, m - 1);
    let vowel_b = grapheme_slice(word, m - 1, m);
    let suffix = tail(word);
    let ending = lowercase(suffix);
    if excepted(WORDEND_D_INTERVOWEL_RULES_EXCEPT@, word).is_some() {
        excepted(WORDEND_D_INTERVOWEL_RULES_EXCEPT@, word).unwrap()
    } else if m < 3 || is_stressed(prefix) {
        word
    } else if ending == "ada"@ {
        prefix + apply_case("á"@, vowel_b)
    } else if ending == "adas"@ {
        prefix + apply_case(with_circumflex(vowel_a) + "h"@, grapheme_slice(suffix, 0, 2))
    } else if ending == "ado"@ {
        prefix + vowel_a + vowel_b
    } else if ending == "ados"@ || ending == "idos"@ || ending == "ídos"@ {
        prefix + with_acute(vowel_a) + with_circumflex(vowel_b)
    } else if ending == "idas"@ {
        prefix + vowel_a + d + with_circumflex(vowel_b)
    } else if ending == "ido"@ || ending == "ído"@ {
        prefix + apply_case("í"@, vowel_a) + vowel_b
    } else {
        word
    }
}

/// Rewrites a word in `-ado`, `-ada`, `-ido`, `-ida` or a plural of these.
pub fn rewrite_inter_d(word: &Vec<char>) -> (r: Vec<char>)
    ensures
        r@ == inter_d(word@),
{
    if let Some(w) = exception_for(WORDEND_D_INTERVOWEL_RULES_EXCEPT.as_slice(), word) {
        return w;
    }
    let clusters = grapheme_clusters(word);
    let n = clusters.len();
    let mut m = n;
    if n >= 1 {
        let last = join(&clusters, n - 1, n);
        if spells(&last, "s") || spells(&last, "S") {
            m = n - 1;
        }
    }
    assert(m == stem_len(word@));
    if m < 3 {
        let out = copy_range(word, 0, word.len());
        assert(out@ =~= word@);
        return out;
    }
    let mut out = join(&clusters, 0, m - 3);
    if stressed(&out) {
        let same = copy_range(word, 0, word.len());
        assert(same@ =~= word@);
        return same;
    }
    let vowel_a = join(&clusters, m - 3, m - 2);
    let d = join(&clusters, m - 2, m - 1);
    let vowel_b = join(&clusters, m - 1, m);
    let suffix = join(&clusters, m - 3, n);
    let ending = to_lower(&suffix);
    if spells(&ending, "ada") {
        let a = keep_case(&chars_of("á"), &vowel_b);
        push_all(&mut out, &a);
        out
    } else if spells(&ending, "adas") {
        let mut marked = circumflex(&vowel_a);
        push_all(&mut marked, &chars_of("h"));
        let model = {
            let parts = grapheme_clusters(&suffix);
            join(&parts, 0, 2)
        };
        let ah = keep_case(&marked, &model);
        push_all(&mut out, &ah);
        out
    } else if spells(&ending, "ado") {
        push_all(&mut out, &vowel_a);
        push_all(&mut out, &vowel_b);
        out
    } else if spells(&ending, "ados") || spells(&ending, "idos") || spells(&ending, "ídos") {
        let a = tilde(&vowel_a);
        let b = circumflex(&vowel_b);
        push_all(&mut out, &a);
        push_all(&mut out, &b);
        out
    } else if spells(&ending, "idas") {
        let b = circumflex(&vowel_b);
        push_all(&mut out, &vowel_a);
        push_all(&mut out, &d);
        push_all(&mut out, &b);
        out
    } else if spells(&ending, "ido") || spells(&ending, "ído") {
        let i = keep_case(&chars_of("í"), &vowel_a);
        push_all(&mut out, &i);
        push_all(&mut out, &vowel_b);
        out
    } else {
        let same = copy_range(word, 0, word.len());
        assert(same@ =~= word@);
        same
    }
}

} // verus!
