//! Exception precedence for whole texts: what guarding and restoring,
//! one after the other, make of a text.
//!
//! Where guarding has swapped each excepted word at its own place, and the
//! text holds nothing that reads as the head of a placeholder, restoring
//! puts the replacement of each excepted word in the place of the word and
//! changes nothing else.

use crate::defs::excepted;
use crate::grammar::Phase;
use crate::guard::{guard, guard_from, placeholder, restore, restore_from, stands_at};
use crate::laws::{
    is_digit, lemma_decimal_digits, lemma_guard_records, lemma_placeholders_differ,
    lemma_restore_keeps, lemma_restore_looks_ahead, lemma_restore_own, marks_from,
};
use crate::pipeline::{exceptions_of, rewritten, run_phase};
use crate::text::{
    decimal, find, is_word, lemma_find_from, lemma_word_len_bound, lemma_words_from, occurs_at,
    replace_first, word_len, words, words_from,
};
use crate::unicode::is_space;
use vstd::prelude::*;

verus! {

/// The head that every placeholder begins with.
pub open spec fn token_head() -> Seq<char> {
    seq!['A', 'N', 'D', '_']
}

/// The text from position `i` on as guarding is meant to leave it: each
/// word that the table holds is swapped for the placeholder of its index
/// among the words, `k` being the index of the next word, and everything
/// else stands as it did.
pub open spec fn guarded_from(
    text: Seq<char>,
    table: Seq<(&'static str, &'static str)>,
    i: int,
    k: nat,
) -> Seq<char>
    decreases text.len() - i,
{
    if i < 0 || i >= text.len() {
        Seq::empty()
    } else if is_space(text[i]) {
        seq![text[i]] + guarded_from(text, table, i + 1, k)
    } else {
        proof {
            lemma_word_len_bound(text, i);
        }
        let w = text.subrange(i, i + word_len(text, i));
        (if excepted(table, w).is_some() {
            placeholder(k)
        } else {
            w
        }) + guarded_from(text, table, i + word_len(text, i), k + 1)
    }
}

/// The text from position `i` on with each word that the table holds
/// replaced by what the table holds for it, in the case pattern of the
/// word, and nothing else changed.
pub open spec fn excepted_from(
    text: Seq<char>,
    table: Seq<(&'static str, &'static str)>,
    i: int,
) -> Seq<char>
    decreases text.len() - i,
{
    if i < 0 || i >= text.len() {
        Seq::empty()
    } else if is_space(text[i]) {
        seq![text[i]] + excepted_from(text, table, i + 1)
    } else {
        proof {
            lemma_word_len_bound(text, i);
        }
        let w = text.subrange(i, i + word_len(text, i));
        (if excepted(table, w).is_some() {
            excepted(table, w).unwrap()
        } else {
            w
        }) + excepted_from(text, table, i + word_len(text, i))
    }
}

/// The pairs that guarding is meant to record for the words from position
/// `i` on, `k` being the index of the next word.
pub open spec fn pairs_from(
    text: Seq<char>,
    table: Seq<(&'static str, &'static str)>,
    i: int,
    k: nat,
) -> Seq<(Seq<char>, Seq<char>)>
    decreases text.len() - i,
{
    if i < 0 || i >= text.len() {
        Seq::empty()
    } else if is_space(text[i]) {
        pairs_from(text, table, i + 1, k)
    } else {
        proof {
            lemma_word_len_bound(text, i);
        }
        let w = text.subrange(i, i + word_len(text, i));
        (if excepted(table, w).is_some() {
            seq![(placeholder(k), excepted(table, w).unwrap())]
        } else {
            Seq::empty()
        }) + pairs_from(text, table, i + word_len(text, i), k + 1)
    }
}

/// A word ends at the end of the text or before whitespace.
pub proof fn lemma_word_ends(text: Seq<char>, i: int)
    requires
        0 <= i < text.len(),
        !is_space(text[i]),
    ensures
        word_len(text, i) >= 1,
        i + word_len(text, i) <= text.len(),
        i + word_len(text, i) < text.len() ==> is_space(text[i + word_len(text, i)]),
    decreases text.len() - i,
{
    assert(word_len(text, i) == 1 + word_len(text, i + 1));
    if i + 1 < text.len() && !is_space(text[i + 1]) {
        lemma_word_ends(text, i + 1);
    } else {
        assert(word_len(text, i + 1) == 0);
    }
}

/// A text begins with the head of a placeholder.
pub open spec fn begins_with(text: Seq<char>, s: Seq<char>) -> bool {
    occurs_at(text, s, 0)
}

/// What the guarded text begins with, it has from the text itself, unless
/// an `A` is among it: only placeholders are new, and they begin with `A`.
pub proof fn lemma_prefix_is_text(
    text: Seq<char>,
    table: Seq<(&'static str, &'static str)>,
    i: int,
    k: nat,
    s: Seq<char>,
)
    requires
        0 <= i <= text.len(),
        forall|j: int| 0 <= j < s.len() ==> #[trigger] s[j] != 'A',
        begins_with(guarded_from(text, table, i, k), s),
    ensures
        occurs_at(text, s, i),
    decreases text.len() - i,
{
    let g = guarded_from(text, table, i, k);
    if s.len() == 0 {
        assert(text.subrange(i, i) =~= s);
    } else if is_space(text[i]) {
        let rest = guarded_from(text, table, i + 1, k);
        let tail = s.subrange(1, s.len() as int);
        assert(g.subrange(0, s.len() as int)[0] == s[0]);
        assert(rest.subrange(0, tail.len() as int) =~= g.subrange(0, s.len() as int).subrange(
            1,
            s.len() as int,
        ));
        assert forall|j: int| 0 <= j < tail.len() implies #[trigger] tail[j] != 'A' by {
            assert(tail[j] == s[j + 1]);
        }
        lemma_prefix_is_text(text, table, i + 1, k, tail);
        assert(text.subrange(i, i + s.len()) =~= seq![text[i]] + text.subrange(
            i + 1,
            i + 1 + tail.len(),
        ));
        assert(s =~= seq![s[0]] + tail);
    } else {
        lemma_word_ends(text, i);
        let n = word_len(text, i) as int;
        let w = text.subrange(i, i + n);
        let rest = guarded_from(text, table, i + n, k + 1);
        if excepted(table, w).is_some() {
            reveal_strlit("AND_");
            assert(placeholder(k)[0] == 'A');
            assert(g[0] == 'A');
            assert(g.subrange(0, s.len() as int)[0] == s[0]);
            assert(s[0] != 'A');
        } else if s.len() <= n {
            assert(text.subrange(i, i + s.len()) =~= g.subrange(0, s.len() as int));
        } else {
            let tail = s.subrange(n, s.len() as int);
            assert(rest.subrange(0, tail.len() as int) =~= g.subrange(0, s.len() as int).subrange(
                n,
                s.len() as int,
            ));
            assert forall|j: int| 0 <= j < tail.len() implies #[trigger] tail[j] != 'A' by {
                assert(tail[j] == s[j + n]);
            }
            lemma_prefix_is_text(text, table, i + n, (k + 1) as nat, tail);
            assert(w =~= g.subrange(0, s.len() as int).subrange(0, n));
            assert(text.subrange(i, i + s.len()) =~= w + text.subrange(i + n, i + n + tail.len()));
            assert(s =~= s.subrange(0, n) + tail);
        }
    }
}

/// The text holds nothing that reads as the head of a placeholder.
pub open spec fn holds_no_token(text: Seq<char>) -> bool {
    forall|j: int| !#[trigger] occurs_at(text, token_head(), j)
}

/// No whitespace character of the text is a digit.
pub open spec fn spaces_are_no_digits(text: Seq<char>) -> bool {
    forall|j: int| 0 <= j < text.len() && is_space(#[trigger] text[j]) ==> !is_digit(text[j])
}

/// A placeholder.
pub open spec fn is_token(p: Seq<char>) -> bool {
    exists|m: nat| p == #[trigger] placeholder(m)
}

/// A placeholder of a word with index `k` or more.
pub open spec fn is_token_from(p: Seq<char>, k: nat) -> bool {
    exists|m: nat| m >= k && p == #[trigger] placeholder(m)
}

/// Every pair of the list holds a placeholder.
pub open spec fn all_tokens(marks: Seq<(Seq<char>, Seq<char>)>) -> bool {
    forall|j: int| 0 <= j < marks.len() ==> is_token(#[trigger] marks[j].0)
}

/// No two pairs of the list hold the same placeholder.
pub open spec fn no_twins(marks: Seq<(Seq<char>, Seq<char>)>) -> bool {
    forall|a: int, b: int|
        0 <= a < marks.len() && 0 <= b < marks.len() && #[trigger] marks[a].0
            == #[trigger] marks[b].0 ==> a == b
}

/// In a stretch of the text itself, followed by guarded text, the head of
/// a placeholder begins nowhere, if it begins nowhere in the text.
pub proof fn lemma_no_token(
    text: Seq<char>,
    table: Seq<(&'static str, &'static str)>,
    i: int,
    n: int,
    k: nat,
    o: int,
)
    requires
        0 <= i,
        0 <= o < n,
        i + n <= text.len(),
        holds_no_token(text),
    ensures
        !occurs_at(text.subrange(i, i + n) + guarded_from(text, table, i + n, k), token_head(), o),
{
    let g = guarded_from(text, table, i + n, k);
    let p = text.subrange(i, i + n) + g;
    let head = token_head();
    if occurs_at(p, head, o) {
        let r = n - o;
        assert(p.subrange(o, o + 4) == head);
        if r >= 4 {
            assert(text.subrange(i + o, i + o + 4) =~= p.subrange(o, o + 4));
        } else {
            let s = head.subrange(r, 4);
            assert(g.subrange(0, 4 - r) =~= p.subrange(o, o + 4).subrange(r, 4));
            assert(begins_with(g, s));
            lemma_prefix_is_text(text, table, i + n, k, s);
            assert(text.subrange(i + o, i + n) =~= p.subrange(o, o + 4).subrange(0, r));
            assert(text.subrange(i + o, i + o + 4) =~= text.subrange(i + o, i + n)
                + text.subrange(i + n, i + n + s.len()));
            assert(head =~= head.subrange(0, r) + s);
        }
        assert(occurs_at(text, head, i + o));
    }
}

/// Where the head of a placeholder does not begin, no placeholder stands.
pub proof fn lemma_no_pair_stands(
    p: Seq<char>,
    marks: Seq<(Seq<char>, Seq<char>)>,
    o: int,
)
    requires
        all_tokens(marks),
        !occurs_at(p, token_head(), o),
    ensures
        forall|j: int| !#[trigger] stands_at(p, marks, j, o),
{
    reveal_strlit("AND_");
    assert forall|j: int| !#[trigger] stands_at(p, marks, j, o) by {
        if stands_at(p, marks, j, o) {
            assert(is_token(marks[j].0));
            let m = choose|m: nat| marks[j].0 == #[trigger] placeholder(m);
            let token = placeholder(m);
            assert(token.subrange(0, 4) =~= token_head());
            assert(p.subrange(o, o + 4) =~= p.subrange(o, o + token.len()).subrange(0, 4));
        }
    }
}

/// Restoring keeps a stretch of the text itself that is followed by
/// guarded text, and goes on with the guarded text.
pub proof fn lemma_restore_stretch(
    text: Seq<char>,
    table: Seq<(&'static str, &'static str)>,
    marks: Seq<(Seq<char>, Seq<char>)>,
    i: int,
    n: int,
    k: nat,
    o: int,
)
    requires
        0 <= i,
        0 <= o <= n,
        i + n <= text.len(),
        holds_no_token(text),
        all_tokens(marks),
    ensures
        restore_from(
            text.subrange(i, i + n) + guarded_from(text, table, i + n, k),
            marks,
            o,
        ) == text.subrange(i + o, i + n) + restore(guarded_from(text, table, i + n, k), marks),
    decreases n - o,
{
    let stretch = text.subrange(i, i + n);
    let g = guarded_from(text, table, i + n, k);
    let p = stretch + g;
    if o == n {
        lemma_restore_looks_ahead(stretch, g, marks, 0);
        assert(text.subrange(i + o, i + n) + restore(g, marks) =~= restore(g, marks));
    } else {
        lemma_no_token(text, table, i, n, k, o);
        lemma_no_pair_stands(p, marks, o);
        lemma_restore_keeps(p, marks, o);
        lemma_restore_stretch(text, table, marks, i, n, k, o + 1);
        assert(p[o] == text[i + o]);
        assert(seq![text[i + o]] + (text.subrange(i + o + 1, i + n) + restore(g, marks))
            =~= text.subrange(i + o, i + n) + restore(g, marks));
    }
}

/// Restoring writes, for a placeholder that is followed by no digit, the
/// replacement recorded with it, and goes on behind it.
pub proof fn lemma_restore_token(
    k: nat,
    rest: Seq<char>,
    marks: Seq<(Seq<char>, Seq<char>)>,
    idx: int,
)
    requires
        0 <= idx < marks.len(),
        marks[idx].0 == placeholder(k),
        all_tokens(marks),
        no_twins(marks),
        rest.len() == 0 || !is_digit(rest[0]),
    ensures
        restore(placeholder(k) + rest, marks) == marks[idx].1 + restore(rest, marks),
{
    reveal_strlit("AND_");
    let token = placeholder(k);
    let p = token + rest;
    lemma_decimal_digits(k);
    assert(p.subrange(0, token.len() as int) =~= token);
    assert(stands_at(p, marks, idx, 0));
    assert forall|j: int| j != idx && #[trigger] stands_at(p, marks, j, 0) implies marks[j].0.len()
        < token.len() by {
        assert(is_token(marks[j].0));
        let m = choose|m: nat| marks[j].0 == #[trigger] placeholder(m);
        let other = placeholder(m);
        lemma_decimal_digits(m);
        assert(p.subrange(0, other.len() as int) == other);
        if other.len() > token.len() {
            let x = token.len() as int;
            assert(p.subrange(0, other.len() as int)[x] == other[x]);
            assert(other[x] == decimal(m)[x - 4]);
            assert(is_digit(other[x]));
            assert(p[x] == rest[0]);
        } else if other.len() == token.len() {
            assert(other == token);
        }
    }
    lemma_restore_own(p, marks, 0, idx);
    lemma_restore_looks_ahead(token, rest, marks, 0);
}

/// The pairs meant for the words from a position on hold placeholders of
/// words from that index on, and no placeholder twice.
pub proof fn lemma_pairs_tokens(
    text: Seq<char>,
    table: Seq<(&'static str, &'static str)>,
    i: int,
    k: nat,
)
    requires
        0 <= i,
    ensures
        forall|j: int|
            0 <= j < pairs_from(text, table, i, k).len() ==> is_token_from(
                #[trigger] pairs_from(text, table, i, k)[j].0,
                k,
            ),
        no_twins(pairs_from(text, table, i, k)),
        all_tokens(pairs_from(text, table, i, k)),
    decreases text.len() - i,
{
    let pairs = pairs_from(text, table, i, k);
    if i < text.len() {
        if is_space(text[i]) {
            lemma_pairs_tokens(text, table, i + 1, k);
        } else {
            lemma_word_ends(text, i);
            let n = word_len(text, i) as int;
            let w = text.subrange(i, i + n);
            let rest = pairs_from(text, table, i + n, (k + 1) as nat);
            lemma_pairs_tokens(text, table, i + n, (k + 1) as nat);
            assert forall|j: int| 0 <= j < rest.len() implies is_token_from(
                #[trigger] rest[j].0,
                k,
            ) && rest[j].0 != placeholder(k) by {
                assert(is_token_from(rest[j].0, (k + 1) as nat));
                let m = choose|m: nat| m >= k + 1 && rest[j].0 == #[trigger] placeholder(m);
                lemma_placeholders_differ(m, k);
            }
            if excepted(table, w).is_some() {
                let first = (placeholder(k), excepted(table, w).unwrap());
                assert(pairs =~= seq![first] + rest);
                assert(is_token_from(placeholder(k), k));
                assert forall|j: int| 0 <= j < pairs.len() implies is_token_from(
                    #[trigger] pairs[j].0,
                    k,
                ) by {
                    if j > 0 {
                        assert(pairs[j] == rest[j - 1]);
                    }
                }
                assert forall|a: int, b: int|
                    0 <= a < pairs.len() && 0 <= b < pairs.len() && #[trigger] pairs[a].0
                        == #[trigger] pairs[b].0 implies a == b by {
                    if a > 0 {
                        assert(pairs[a] == rest[a - 1]);
                    }
                    if b > 0 {
                        assert(pairs[b] == rest[b - 1]);
                    }
                }
            } else {
                assert(pairs =~= rest);
            }
        }
    }
    assert forall|j: int| 0 <= j < pairs.len() implies is_token(#[trigger] pairs[j].0) by {
        assert(is_token_from(pairs[j].0, k));
    }
}

/// The pairs that guarding records are the pairs meant for the words of
/// the text.
pub proof fn lemma_pairs_are_marks(
    text: Seq<char>,
    table: Seq<(&'static str, &'static str)>,
    i: int,
    k: nat,
    list: Seq<Seq<char>>,
)
    requires
        0 <= i,
        k <= list.len(),
        list.subrange(k as int, list.len() as int) == words_from(text, i),
    ensures
        pairs_from(text, table, i, k) == marks_from(list, table, k as int),
    decreases text.len() - i,
{
    if i < text.len() {
        if is_space(text[i]) {
            lemma_pairs_are_marks(text, table, i + 1, k, list);
        } else {
            lemma_word_ends(text, i);
            let n = word_len(text, i) as int;
            let w = text.subrange(i, i + n);
            let tail = list.subrange(k as int, list.len() as int);
            assert(words_from(text, i) =~= seq![w] + words_from(text, i + n));
            assert(tail.len() >= 1);
            assert(tail.len() == list.len() - k);
            assert(tail[0] == w);
            assert(tail[0] == list[k as int]);
            assert(list.subrange(k as int + 1, list.len() as int) =~= tail.subrange(
                1,
                tail.len() as int,
            ));
            assert(tail.subrange(1, tail.len() as int) =~= words_from(text, i + n));
            lemma_pairs_are_marks(text, table, i + n, (k + 1) as nat, list);
            assert(pairs_from(text, table, i, k) =~= marks_from(list, table, k as int));
        }
    } else {
        assert(list.subrange(k as int, list.len() as int).len() == 0);
    }
}

/// Restoring guarded text with the pairs meant for it gives the text with
/// each excepted word replaced.
pub proof fn lemma_restore_guarded(
    text: Seq<char>,
    table: Seq<(&'static str, &'static str)>,
    marks: Seq<(Seq<char>, Seq<char>)>,
    i: int,
    k: nat,
    done: int,
)
    requires
        0 <= i <= text.len(),
        holds_no_token(text),
        spaces_are_no_digits(text),
        all_tokens(marks),
        no_twins(marks),
        0 <= done <= marks.len(),
        marks.subrange(done, marks.len() as int) == pairs_from(text, table, i, k),
    ensures
        restore(guarded_from(text, table, i, k), marks) == excepted_from(text, table, i),
    decreases text.len() - i,
{
    let g = guarded_from(text, table, i, k);
    if i < text.len() {
        if is_space(text[i]) {
            lemma_restore_guarded(text, table, marks, i + 1, k, done);
            lemma_restore_stretch(text, table, marks, i, 1, k, 0);
            assert(text.subrange(i, i + 1) =~= seq![text[i]]);
        } else {
            lemma_word_ends(text, i);
            let n = word_len(text, i) as int;
            let w = text.subrange(i, i + n);
            let next = guarded_from(text, table, i + n, (k + 1) as nat);
            if excepted(table, w).is_some() {
                let tail = marks.subrange(done, marks.len() as int);
                assert(pairs_from(text, table, i, k) =~= seq![
                    (placeholder(k), excepted(table, w).unwrap()),
                ] + pairs_from(text, table, i + n, (k + 1) as nat));
                assert(tail.len() >= 1);
                assert(tail.len() == marks.len() - done);
                assert(tail[0] == (placeholder(k), excepted(table, w).unwrap()));
                assert(marks[done] == tail[0]);
                assert(marks.subrange(done + 1, marks.len() as int) =~= tail.subrange(
                    1,
                    tail.len() as int,
                ));
                assert(tail.subrange(1, tail.len() as int) =~= pairs_from(
                    text,
                    table,
                    i + n,
                    (k + 1) as nat,
                ));
                lemma_restore_guarded(text, table, marks, i + n, (k + 1) as nat, done + 1);
                if i + n < text.len() {
                    assert(next[0] == text[i + n]);
                }
                lemma_restore_token(k, next, marks, done);
            } else {
                lemma_restore_guarded(text, table, marks, i + n, (k + 1) as nat, done);
                lemma_restore_stretch(text, table, marks, i, n, (k + 1) as nat, 0);
            }
        }
    }
}

/// Exception precedence for a whole text. Let guarding have swapped each
/// excepted word at its own place, let the text hold nothing that reads
/// as the head of a placeholder, and let none of its whitespace be a
/// digit. Then restoring what guarding left gives the text with every
/// word that the table holds replaced by what the table holds for it, in
/// the case pattern of the word, and with nothing else changed: each
/// placeholder gets its own replacement, however many words the text has.
pub proof fn lemma_guard_round_trip(text: Seq<char>, table: Seq<(&'static str, &'static str)>)
    requires
        guard(text, table).1 == guarded_from(text, table, 0, 0),
        holds_no_token(text),
        spaces_are_no_digits(text),
    ensures
        restore(guard(text, table).1, guard(text, table).0) == excepted_from(text, table, 0),
{
    let marks = guard(text, table).0;
    lemma_guard_records(text, table);
    let list = words(text);
    assert(list.subrange(0, list.len() as int) =~= words_from(text, 0));
    lemma_pairs_are_marks(text, table, 0, 0, list);
    lemma_pairs_tokens(text, table, 0, 0);
    assert(marks.subrange(0, marks.len() as int) =~= marks);
    lemma_restore_guarded(text, table, marks, 0, 0, 0);
}

/// The text from position `i` on with the excepted words of index below
/// `upto` swapped for their placeholders and the others as they stand:
/// the text as guarding is meant to leave it after `upto` words.
pub open spec fn mixed_from(
    text: Seq<char>,
    table: Seq<(&'static str, &'static str)>,
    i: int,
    k: nat,
    upto: nat,
) -> Seq<char>
    decreases text.len() - i,
{
    if i < 0 || i >= text.len() {
        Seq::empty()
    } else if is_space(text[i]) {
        seq![text[i]] + mixed_from(text, table, i + 1, k, upto)
    } else {
        proof {
            lemma_word_len_bound(text, i);
        }
        let w = text.subrange(i, i + word_len(text, i));
        (if k < upto && excepted(table, w).is_some() {
            placeholder(k)
        } else {
            w
        }) + mixed_from(text, table, i + word_len(text, i), k + 1, upto)
    }
}

/// What stands for word `a` of a list once it has been guarded: its
/// placeholder where the table holds the word, the word itself elsewhere.
pub open spec fn stands_for(
    list: Seq<Seq<char>>,
    table: Seq<(&'static str, &'static str)>,
    a: int,
) -> Seq<char> {
    if excepted(table, list[a]).is_some() {
        placeholder(a as nat)
    } else {
        list[a]
    }
}

/// No excepted word of the text occurs inside what stands for an earlier
/// word: neither inside an earlier word that the table lacks, nor inside
/// the placeholder of an earlier word that it holds.
pub open spec fn own_places(text: Seq<char>, table: Seq<(&'static str, &'static str)>) -> bool {
    forall|a: int, b: int, o: int|
        0 <= a < b < words(text).len() && excepted(table, words(text)[b]).is_some()
            ==> !#[trigger] occurs_at(stands_for(words(text), table, a), words(text)[b], o)
}

proof fn lemma_mixed_plain(
    text: Seq<char>,
    table: Seq<(&'static str, &'static str)>,
    i: int,
    k: nat,
    upto: nat,
)
    requires
        0 <= i <= text.len(),
        k >= upto,
    ensures
        mixed_from(text, table, i, k, upto) == text.subrange(i, text.len() as int),
    decreases text.len() - i,
{
    if i < text.len() {
        if is_space(text[i]) {
            lemma_mixed_plain(text, table, i + 1, k, upto);
            assert(seq![text[i]] + text.subrange(i + 1, text.len() as int) =~= text.subrange(
                i,
                text.len() as int,
            ));
        } else {
            lemma_word_ends(text, i);
            let n = word_len(text, i) as int;
            lemma_mixed_plain(text, table, i + n, (k + 1) as nat, upto);
            assert(text.subrange(i, i + n) + text.subrange(i + n, text.len() as int)
                =~= text.subrange(i, text.len() as int));
        }
    } else {
        assert(text.subrange(i, text.len() as int) =~= Seq::empty());
    }
}

proof fn lemma_word_of_list(text: Seq<char>, i: int, k: nat, list: Seq<Seq<char>>)
    requires
        0 <= i < text.len(),
        !is_space(text[i]),
        k <= list.len(),
        list.subrange(k as int, list.len() as int) == words_from(text, i),
    ensures
        k < list.len(),
        list[k as int] == text.subrange(i, i + word_len(text, i)),
        list.subrange(k as int + 1, list.len() as int) == words_from(
            text,
            i + word_len(text, i),
        ),
{
    let n = word_len(text, i) as int;
    let w = text.subrange(i, i + n);
    let tail = list.subrange(k as int, list.len() as int);
    assert(words_from(text, i) =~= seq![w] + words_from(text, i + n));
    assert(tail.len() >= 1);
    assert(tail.len() == list.len() - k);
    assert(tail[0] == w);
    assert(tail[0] == list[k as int]);
    assert(list.subrange(k as int + 1, list.len() as int) =~= tail.subrange(
        1,
        tail.len() as int,
    ));
    assert(tail.subrange(1, tail.len() as int) =~= words_from(text, i + n));
}

proof fn lemma_mixed_full(
    text: Seq<char>,
    table: Seq<(&'static str, &'static str)>,
    i: int,
    k: nat,
    upto: nat,
    list: Seq<Seq<char>>,
)
    requires
        0 <= i,
        k <= list.len() <= upto,
        list.subrange(k as int, list.len() as int) == words_from(text, i),
    ensures
        mixed_from(text, table, i, k, upto) == guarded_from(text, table, i, k),
    decreases text.len() - i,
{
    if i < text.len() {
        if is_space(text[i]) {
            lemma_mixed_full(text, table, i + 1, k, upto, list);
        } else {
            lemma_word_ends(text, i);
            lemma_word_of_list(text, i, k, list);
            lemma_mixed_full(text, table, i + word_len(text, i), (k + 1) as nat, upto, list);
        }
    }
}

proof fn lemma_mixed_same(
    text: Seq<char>,
    table: Seq<(&'static str, &'static str)>,
    i: int,
    k: nat,
    upto: nat,
    list: Seq<Seq<char>>,
)
    requires
        0 <= i,
        k <= list.len(),
        upto < list.len(),
        list.subrange(k as int, list.len() as int) == words_from(text, i),
        excepted(table, list[upto as int]).is_none(),
    ensures
        mixed_from(text, table, i, k, upto) == mixed_from(text, table, i, k, (upto + 1) as nat),
    decreases text.len() - i,
{
    if i < text.len() {
        if is_space(text[i]) {
            lemma_mixed_same(text, table, i + 1, k, upto, list);
        } else {
            lemma_word_ends(text, i);
            lemma_word_of_list(text, i, k, list);
            lemma_mixed_same(text, table, i + word_len(text, i), (k + 1) as nat, upto, list);
        }
    }
}

/// The first occurrence is the one before which there is none.
pub proof fn lemma_first_is(text: Seq<char>, pat: Seq<char>, p: int)
    requires
        occurs_at(text, pat, p),
        forall|j: int| 0 <= j < p ==> !occurs_at(text, pat, j),
    ensures
        find(text, pat) == Some(p),
{
    lemma_find_from(text, pat, 0);
}

/// Replacing the first occurrence passes over a stretch in which no
/// occurrence begins.
pub proof fn lemma_replace_skips(a: Seq<char>, b: Seq<char>, w: Seq<char>, r: Seq<char>)
    requires
        forall|o: int| 0 <= o < a.len() ==> !occurs_at(a + b, w, o),
    ensures
        replace_first(a + b, w, r) == a + replace_first(b, w, r),
{
    let t = a + b;
    lemma_find_from(b, w, 0);
    assert forall|j: int| j >= 0 implies occurs_at(t, w, a.len() + j) == occurs_at(b, w, j) by {
        if j + w.len() <= b.len() {
            assert(t.subrange(a.len() + j, a.len() + j + w.len()) =~= b.subrange(j, j + w.len()));
        }
    }
    match find(b, w) {
        Some(q) => {
            assert(occurs_at(t, w, a.len() + q));
            assert forall|j: int| 0 <= j < a.len() + q implies !occurs_at(t, w, j) by {
                if j >= a.len() {
                    assert(occurs_at(t, w, a.len() + (j - a.len())) == occurs_at(
                        b,
                        w,
                        j - a.len(),
                    ));
                }
            }
            lemma_first_is(t, w, a.len() + q);
            assert(t.subrange(0, a.len() + q) + r + t.subrange(
                a.len() + q + w.len(),
                t.len() as int,
            ) =~= a + (b.subrange(0, q) + r + b.subrange(q + w.len(), b.len() as int)));
        },
        None => {
            lemma_find_from(t, w, 0);
            if find(t, w).is_some() {
                let p = find(t, w).unwrap();
                assert(occurs_at(t, w, p));
                assert(p >= a.len());
                assert(occurs_at(t, w, a.len() + (p - a.len())) == occurs_at(b, w, p - a.len()));
            }
        },
    }
}

proof fn lemma_swap(
    text: Seq<char>,
    table: Seq<(&'static str, &'static str)>,
    list: Seq<Seq<char>>,
    i: int,
    k: nat,
    upto: nat,
)
    requires
        0 <= i,
        list == words(text),
        own_places(text, table),
        k <= upto < list.len(),
        list.subrange(k as int, list.len() as int) == words_from(text, i),
        excepted(table, list[upto as int]).is_some(),
        is_word(list[upto as int]),
    ensures
        replace_first(
            mixed_from(text, table, i, k, upto),
            list[upto as int],
            placeholder(upto),
        ) == mixed_from(text, table, i, k, (upto + 1) as nat),
    decreases text.len() - i,
{
    let w = list[upto as int];
    let token = placeholder(upto);
    if i >= text.len() {
        assert(list.subrange(k as int, list.len() as int).len() == list.len() - k);
    } else if is_space(text[i]) {
        let a = seq![text[i]];
        let b = mixed_from(text, table, i + 1, k, upto);
        assert forall|o: int| 0 <= o < a.len() implies !occurs_at(a + b, w, o) by {
            if occurs_at(a + b, w, o) {
                assert((a + b).subrange(0, w.len() as int)[0] == w[0]);
                assert(!is_space(w[0]));
            }
        }
        lemma_replace_skips(a, b, w, token);
        lemma_swap(text, table, list, i + 1, k, upto);
    } else {
        lemma_word_ends(text, i);
        lemma_word_of_list(text, i, k, list);
        let n = word_len(text, i) as int;
        let here = text.subrange(i, i + n);
        if k < upto {
            let a = if excepted(table, here).is_some() {
                placeholder(k)
            } else {
                here
            };
            let b = mixed_from(text, table, i + n, (k + 1) as nat, upto);
            assert(a == stands_for(list, table, k as int));
            assert forall|o: int| 0 <= o < a.len() implies !occurs_at(a + b, w, o) by {
                if occurs_at(a + b, w, o) {
                    if o + w.len() <= a.len() {
                        assert(a.subrange(o, o + w.len()) =~= (a + b).subrange(o, o + w.len()));
                        assert(occurs_at(a, w, o));
                    } else {
                        let x = a.len() - o;
                        assert((a + b).subrange(o, o + w.len())[x] == w[x]);
                        assert((a + b)[a.len() as int] == b[0]);
                        assert(b.len() > 0);
                        assert(i + n < text.len());
                        assert(b[0] == text[i + n]);
                        assert(!is_space(w[x]));
                    }
                }
            }
            lemma_replace_skips(a, b, w, token);
            lemma_swap(text, table, list, i + n, (k + 1) as nat, upto);
        } else {
            let b = mixed_from(text, table, i + n, (k + 1) as nat, upto);
            lemma_mixed_plain(text, table, i + n, (k + 1) as nat, upto);
            lemma_mixed_plain(text, table, i + n, (k + 1) as nat, (upto + 1) as nat);
            let t = here + b;
            assert(t.subrange(0, w.len() as int) =~= w);
            lemma_first_is(t, w, 0);
            assert(t.subrange(0, 0) + token + t.subrange(w.len() as int, t.len() as int)
                =~= token + b);
        }
    }
}

proof fn lemma_guard_mixed(
    text: Seq<char>,
    table: Seq<(&'static str, &'static str)>,
    k: nat,
    marks: Seq<(Seq<char>, Seq<char>)>,
)
    requires
        own_places(text, table),
        k <= words(text).len(),
    ensures
        guard_from(
            words(text),
            table,
            k as int,
            marks,
            mixed_from(text, table, 0, 0, k),
        ).1 == guarded_from(text, table, 0, 0),
    decreases words(text).len() - k,
{
    let list = words(text);
    assert(list.subrange(0, list.len() as int) =~= words_from(text, 0));
    if k >= list.len() {
        lemma_mixed_full(text, table, 0, 0, k, list);
    } else {
        lemma_words_from(text, 0);
        match excepted(table, list[k as int]) {
            Some(w) => {
                lemma_swap(text, table, list, 0, 0, k);
                lemma_guard_mixed(
                    text,
                    table,
                    (k + 1) as nat,
                    marks.push((placeholder(k), w)),
                );
            },
            None => {
                lemma_mixed_same(text, table, 0, 0, k, list);
                lemma_guard_mixed(text, table, (k + 1) as nat, marks);
            },
        }
    }
}

/// Guarding swaps each excepted word at its own place, where no excepted
/// word occurs inside what stands for an earlier word.
pub proof fn lemma_guard_own_places(text: Seq<char>, table: Seq<(&'static str, &'static str)>)
    requires
        own_places(text, table),
    ensures
        guard(text, table).1 == guarded_from(text, table, 0, 0),
{
    lemma_mixed_plain(text, table, 0, 0, 0);
    assert(text.subrange(0, text.len() as int) =~= text);
    lemma_guard_mixed(text, table, 0, Seq::empty());
}

/// Exception precedence for a whole text. Let no excepted word of the
/// text occur inside what stands for an earlier word, let the text hold
/// nothing that reads as the head of a placeholder, and let none of its
/// whitespace be a digit. Then guarding and restoring, one after the
/// other, give the text with every word that the table holds replaced by
/// what the table holds for it, in the case pattern of the word, and with
/// nothing else changed.
pub proof fn lemma_exception_precedence(
    text: Seq<char>,
    table: Seq<(&'static str, &'static str)>,
)
    requires
        own_places(text, table),
        holds_no_token(text),
        spaces_are_no_digits(text),
    ensures
        restore(guard(text, table).1, guard(text, table).0) == excepted_from(text, table, 0),
{
    lemma_guard_own_places(text, table);
    lemma_guard_round_trip(text, table);
}

/// The grammar of a guarded phase never sees an excepted word. Where no
/// excepted word of the text occurs inside what stands for an earlier
/// word, the phase applies its grammar and rules to the text in which
/// each excepted word is swapped for its placeholder at its own place,
/// and restores with the pair of each excepted word: its placeholder and
/// what the table holds for it, in the case pattern of the word.
pub proof fn lemma_phase_sees_no_excepted_word(phase: Phase, text: Seq<char>)
    requires
        exceptions_of(phase).is_some(),
        own_places(text, exceptions_of(phase).unwrap()),
    ensures
        run_phase(phase, text) == restore(
            rewritten(
                phase,
                guarded_from(text, exceptions_of(phase).unwrap(), 0, 0),
            ),
            pairs_from(text, exceptions_of(phase).unwrap(), 0, 0),
        ),
{
    let table = exceptions_of(phase).unwrap();
    lemma_guard_own_places(text, table);
    lemma_guard_records(text, table);
    let list = words(text);
    assert(list.subrange(0, list.len() as int) =~= words_from(text, 0));
    lemma_pairs_are_marks(text, table, 0, 0, list);
}

} // verus!
