//! Plain operations on character sequences: copying, comparing, searching,
//! replacing an occurrence, splitting into words, and writing a number in
//! decimal.
//!
//! Texts are held as `Vec<char>` and modelled as `Seq<char>`.

use crate::unicode::is_space;
use vstd::prelude::*;

verus! {

/// The characters of a string slice.
pub fn chars_of(s: &str) -> (r: Vec<char>)
    ensures
        r@ == s@,
{
    let mut out: Vec<char> = Vec::new();
    for c in it: s.chars()
        invariant
            out@ == it.seq().take(it.index() as int),
    {
        out.push(c);
    }
    out
}

/// The string spelled by a character sequence.
pub fn string_of(text: &Vec<char>) -> (r: String)
    ensures
        r@ == text@,
{
    let mut out = String::new();
    let mut i: usize = 0;
    while i < text.len()
        invariant
            i <= text.len(),
            out@ == text@.take(i as int),
        decreases text.len() - i,
    {
        out.push(text[i]);
        i += 1;
    }
    out
}

/// Appends `src` to `out`.
pub fn push_all(out: &mut Vec<char>, src: &Vec<char>)
    ensures
        final(out)@ == old(out)@ + src@,
{
    let mut i: usize = 0;
    while i < src.len()
        invariant
            i <= src.len(),
            out@ == old(out)@ + src@.take(i as int),
        decreases src.len() - i,
    {
        out.push(src[i]);
        i += 1;
    }
}

/// Appends the characters of `src` to `out`.
pub fn push_str(out: &mut Vec<char>, src: &str)
    ensures
        final(out)@ == old(out)@ + src@,
{
    for c in it: src.chars()
        invariant
            out@ == old(out)@ + it.seq().take(it.index() as int),
    {
        out.push(c);
    }
}

/// The characters of `text` from `start` up to `end`, with both bounds cut
/// to the length of the text and `start` to `end`.
pub open spec fn range(text: Seq<char>, start: int, end: int) -> Seq<char> {
    let hi = if 0 <= end <= text.len() {
        end
    } else if end < 0 {
        0
    } else {
        text.len() as int
    };
    let lo = if 0 <= start <= hi {
        start
    } else if start < 0 {
        0
    } else {
        hi
    };
    text.subrange(lo, hi)
}

/// The characters of `text` from `start` up to `end`. Bounds past the end
/// of the text are cut to it, and a reversed range is empty.
pub fn copy_range(text: &Vec<char>, start: usize, end: usize) -> (r: Vec<char>)
    ensures
        r@ == range(text@, start as int, end as int),
        start <= end <= text.len() ==> r@ == text@.subrange(start as int, end as int),
{
    let hi: usize = if end <= text.len() {
        end
    } else {
        text.len()
    };
    let lo: usize = if start <= hi {
        start
    } else {
        hi
    };
    let mut out: Vec<char> = Vec::new();
    let mut i: usize = lo;
    while i < hi
        invariant
            lo <= i <= hi <= text.len(),
            out@ == text@.subrange(lo as int, i as int),
        decreases hi - i,
    {
        out.push(text[i]);
        i += 1;
    }
    out
}

/// Whether two texts hold the same characters.
pub fn same_text(a: &Vec<char>, b: &Vec<char>) -> (r: bool)
    ensures
        r == (a@ == b@),
{
    if a.len() != b.len() {
        return false;
    }
    let mut i: usize = 0;
    while i < a.len()
        invariant
            i <= a.len() == b.len(),
            a@.take(i as int) == b@.take(i as int),
        decreases a.len() - i,
    {
        if a[i] != b[i] {
            return false;
        }
        assert(a@.take(i + 1) =~= a@.take(i as int).push(a@[i as int]));
        assert(b@.take(i + 1) =~= b@.take(i as int).push(b@[i as int]));
        i += 1;
    }
    assert(a@ =~= a@.take(a.len() as int));
    assert(b@ =~= b@.take(b.len() as int));
    true
}

/// Whether `text` spells the string `s`.
pub fn spells(text: &Vec<char>, s: &str) -> (r: bool)
    ensures
        r == (text@ == s@),
{
    let other = chars_of(s);
    same_text(text, &other)
}

/// The texts held by a list of character vectors.
pub open spec fn views(list: Seq<Vec<char>>) -> Seq<Seq<char>> {
    list.map_values(|t: Vec<char>| t@)
}

/// `pat` stands in `text` at position `i`.
pub open spec fn occurs_at(text: Seq<char>, pat: Seq<char>, i: int) -> bool {
    0 <= i && i + pat.len() <= text.len() && text.subrange(i, i + pat.len()) == pat
}

/// Whether `pat` stands in `text` at position `i`.
pub fn matches_at(text: &Vec<char>, pat: &Vec<char>, i: usize) -> (r: bool)
    ensures
        r == occurs_at(text@, pat@, i as int),
{
    if i > text.len() || pat.len() > text.len() - i {
        return false;
    }
    let mut k: usize = 0;
    while k < pat.len()
        invariant
            k <= pat.len(),
            i + pat.len() <= text.len(),
            text@.subrange(i as int, i + k) == pat@.take(k as int),
        decreases pat.len() - k,
    {
        if text[i + k] != pat[k] {
            assert(text@.subrange(i as int, i + pat.len())[k as int] != pat@[k as int]);
            return false;
        }
        assert(text@.subrange(i as int, i + k + 1) =~= text@.subrange(i as int, i + k).push(
            text@[i + k],
        ));
        assert(pat@.take(k + 1) =~= pat@.take(k as int).push(pat@[k as int]));
        k += 1;
    }
    assert(pat@ =~= pat@.take(pat.len() as int));
    true
}

/// The first position at or after `i` where `pat` stands in `text`.
pub open spec fn find_from(text: Seq<char>, pat: Seq<char>, i: int) -> Option<int>
    decreases text.len() - i,
{
    if i < 0 || i + pat.len() > text.len() {
        None
    } else if occurs_at(text, pat, i) {
        Some(i)
    } else if i < text.len() {
        find_from(text, pat, i + 1)
    } else {
        None
    }
}

/// The first position where `pat` stands in `text`.
pub open spec fn find(text: Seq<char>, pat: Seq<char>) -> Option<int> {
    find_from(text, pat, 0)
}

/// `find` returns the least position of an occurrence, and `None` only when
/// there is none.
pub proof fn lemma_find_from(text: Seq<char>, pat: Seq<char>, i: int)
    requires
        0 <= i,
    ensures
        match find_from(text, pat, i) {
            Some(p) => i <= p && occurs_at(text, pat, p) && forall|j: int|
                i <= j < p ==> !occurs_at(text, pat, j),
            None => forall|j: int| i <= j ==> !occurs_at(text, pat, j),
        },
    decreases text.len() - i,
{
    if i + pat.len() > text.len() {
    } else if occurs_at(text, pat, i) {
    } else if i < text.len() {
        lemma_find_from(text, pat, i + 1);
    } else {
        assert(text.subrange(i, i) =~= pat);
    }
}

/// Searches `text` for the first occurrence of `pat`: the result is the
/// least position at which `pat` stands, and `None` where it stands
/// nowhere.
pub fn find_first(text: &Vec<char>, pat: &Vec<char>) -> (r: Option<usize>)
    ensures
        match r {
            Some(p) => find(text@, pat@) == Some(p as int) && occurs_at(text@, pat@, p as int)
                && forall|j: int| 0 <= j < p ==> !occurs_at(text@, pat@, j),
            None => find(text@, pat@).is_none() && forall|j: int| !occurs_at(text@, pat@, j),
        },
{
    proof {
        lemma_find_from(text@, pat@, 0);
    }
    if pat.len() > text.len() {
        return None;
    }
    let last: usize = text.len() - pat.len();
    let mut i: usize = 0;
    while i < last
        invariant
            i <= last,
            last == text.len() - pat.len(),
            find_from(text@, pat@, i as int) == find(text@, pat@),
        decreases last - i,
    {
        if matches_at(text, pat, i) {
            proof {
                lemma_find_from(text@, pat@, 0);
            }
            return Some(i);
        }
        i += 1;
    }
    if matches_at(text, pat, last) {
        Some(last)
    } else {
        assert(find_from(text@, pat@, last + 1).is_none());
        None
    }
}

/// `text` with its first occurrence of `pat` replaced by `with`; `text`
/// itself when `pat` does not occur.
pub open spec fn replace_first(text: Seq<char>, pat: Seq<char>, with: Seq<char>) -> Seq<char> {
    match find(text, pat) {
        Some(p) => text.subrange(0, p) + with + text.subrange(p + pat.len(), text.len() as int),
        None => text,
    }
}

/// Replaces the first occurrence of `pat` in `text` by `with`.
pub fn replace_first_in(text: &Vec<char>, pat: &Vec<char>, with: &Vec<char>) -> (r: Vec<char>)
    ensures
        r@ == replace_first(text@, pat@, with@),
{
    match find_first(text, pat) {
        Some(p) => {
            assert(occurs_at(text@, pat@, p as int));
            let mut out = copy_range(text, 0, p);
            push_all(&mut out, with);
            let rest = copy_range(text, p + pat.len(), text.len());
            push_all(&mut out, &rest);
            out
        },
        None => {
            let out = copy_range(text, 0, text.len());
            assert(out@ =~= text@);
            out
        },
    }
}

/// The number of characters from `i` on up to the next whitespace or the
/// end of `text`.
pub open spec fn word_len(text: Seq<char>, i: int) -> nat
    decreases text.len() - i,
{
    if 0 <= i < text.len() && !is_space(text[i]) {
        1 + word_len(text, i + 1)
    } else {
        0
    }
}

/// The whitespace-delimited words of `text` from position `i` on.
pub open spec fn words_from(text: Seq<char>, i: int) -> Seq<Seq<char>>
    decreases text.len() - i,
{
    if i < 0 || i >= text.len() {
        Seq::empty()
    } else if is_space(text[i]) {
        words_from(text, i + 1)
    } else {
        proof {
            lemma_word_len_bound(text, i);
        }
        seq![text.subrange(i, i + word_len(text, i))] + words_from(text, i + word_len(text, i))
    }
}

/// The whitespace-delimited words of `text`, in order; none is empty.
pub open spec fn words(text: Seq<char>) -> Seq<Seq<char>> {
    words_from(text, 0)
}

/// A run of non-whitespace characters ends within the text.
pub proof fn lemma_word_len_bound(text: Seq<char>, i: int)
    requires
        0 <= i <= text.len(),
    ensures
        i + word_len(text, i) <= text.len(),
    decreases text.len() - i,
{
    if i < text.len() && !is_space(text[i]) {
        lemma_word_len_bound(text, i + 1);
    }
}

/// No character of a run of non-whitespace characters is whitespace.
pub proof fn lemma_word_len_run(text: Seq<char>, i: int, j: int)
    requires
        0 <= i <= j < i + word_len(text, i),
    ensures
        j < text.len(),
        !is_space(text[j]),
    decreases j - i,
{
    if i < j {
        lemma_word_len_run(text, i + 1, j);
    }
}

/// A word is a run without whitespace.
pub open spec fn is_word(word: Seq<char>) -> bool {
    word.len() > 0 && forall|j: int| 0 <= j < word.len() ==> !is_space(#[trigger] word[j])
}

/// Every word of a text is a run of its characters that is not empty and
/// holds no whitespace.
pub proof fn lemma_words_from(text: Seq<char>, i: int)
    requires
        0 <= i,
    ensures
        forall|k: int|
            0 <= k < words_from(text, i).len() ==> is_word(#[trigger] words_from(text, i)[k]),
    decreases text.len() - i,
{
    if i < text.len() {
        if is_space(text[i]) {
            lemma_words_from(text, i + 1);
            assert(words_from(text, i) == words_from(text, i + 1));
        } else {
            let n = word_len(text, i);
            lemma_word_len_bound(text, i);
            lemma_words_from(text, i + n);
            let head = text.subrange(i, i + n);
            assert forall|j: int| 0 <= j < head.len() implies !is_space(#[trigger] head[j]) by {
                lemma_word_len_run(text, i, i + j);
            }
            assert(is_word(head));
            assert forall|k: int| 0 <= k < words_from(text, i).len() implies is_word(
                #[trigger] words_from(text, i)[k],
            ) by {
                if k > 0 {
                    assert(words_from(text, i)[k] == words_from(text, i + n)[k - 1]);
                }
            }
        }
    }
}

/// Measures the run of non-whitespace characters that starts at `i`.
pub fn measure_word(text: &Vec<char>, i: usize) -> (n: usize)
    ensures
        n == word_len(text@, i as int),
        i <= text.len() ==> i + n <= text.len(),
{
    if i >= text.len() {
        return 0;
    }
    let mut j: usize = i;
    while j < text.len() && !text[j].is_whitespace()
        invariant
            i <= j <= text.len(),
            word_len(text@, i as int) == (j - i) + word_len(text@, j as int),
        decreases text.len() - j,
    {
        j += 1;
    }
    j - i
}

/// Splits `text` into its whitespace-delimited words. No word is empty and
/// none holds whitespace.
pub fn split_words(text: &Vec<char>) -> (r: Vec<Vec<char>>)
    ensures
        views(r@) == words(text@),
        forall|k: int| 0 <= k < r@.len() ==> is_word(#[trigger] r@[k]@),
{
    proof {
        lemma_words_from(text@, 0);
        assert forall|k: int| 0 <= k < words(text@).len() implies is_word(
            #[trigger] words(text@)[k],
        ) by {}
    }
    let mut out: Vec<Vec<char>> = Vec::new();
    let mut i: usize = 0;
    while i < text.len()
        invariant
            i <= text.len(),
            views(out@) + words_from(text@, i as int) == words(text@),
        decreases text.len() - i,
    {
        let ghost before = views(out@);
        if text[i].is_whitespace() {
            i += 1;
        } else {
            let n = measure_word(text, i);
            let word = copy_range(text, i, i + n);
            out.push(word);
            assert(views(out@) =~= before.push(text@.subrange(i as int, i + n)));
            assert(before.push(text@.subrange(i as int, i + n)) + words_from(text@, i + n)
                =~= before + words_from(text@, i as int));
            i += n;
        }
    }
    assert(views(out@) + words_from(text@, i as int) =~= views(out@));
    assert forall|k: int| 0 <= k < out@.len() implies is_word(#[trigger] out@[k]@) by {
        assert(views(out@)[k] == out@[k]@);
    }
    out
}

/// The decimal digit for a value below ten.
pub open spec fn digit(d: nat) -> char {
    if d == 0 {
        '0'
    } else if d == 1 {
        '1'
    } else if d == 2 {
        '2'
    } else if d == 3 {
        '3'
    } else if d == 4 {
        '4'
    } else if d == 5 {
        '5'
    } else if d == 6 {
        '6'
    } else if d == 7 {
        '7'
    } else if d == 8 {
        '8'
    } else {
        '9'
    }
}

/// The decimal numeral of `n`, without leading zeros.
pub open spec fn decimal(n: nat) -> Seq<char>
    decreases n,
{
    if n < 10 {
        seq![digit(n)]
    } else {
        decimal(n / 10).push(digit(n % 10))
    }
}

/// The character of a decimal digit.
fn digit_char(d: usize) -> (c: char)
    requires
        d < 10,
    ensures
        c == digit(d as nat),
{
    if d == 0 {
        '0'
    } else if d == 1 {
        '1'
    } else if d == 2 {
        '2'
    } else if d == 3 {
        '3'
    } else if d == 4 {
        '4'
    } else if d == 5 {
        '5'
    } else if d == 6 {
        '6'
    } else if d == 7 {
        '7'
    } else if d == 8 {
        '8'
    } else {
        '9'
    }
}

/// Writes `n` in decimal.
pub fn decimal_of(n: usize) -> (r: Vec<char>)
    ensures
        r@ == decimal(n as nat),
    decreases n,
{
    if n < 10 {
        let mut out: Vec<char> = Vec::new();
        out.push(digit_char(n));
        out
    } else {
        let mut out = decimal_of(n / 10);
        out.push(digit_char(n % 10));
        out
    }
}

} // verus!
