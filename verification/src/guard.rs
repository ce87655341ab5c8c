//! Protection of excepted words around a phase: each word that the phase's
//! exception table holds is swapped for a placeholder before the grammar
//! runs, and the placeholder for the word's own replacement afterwards.
//!
//! Guarding swaps the first occurrence of a word. Restoring is one pass
//! from left to right that takes the longest placeholder standing at each
//! position, so that the placeholder of word 1 is not mistaken for the
//! head of the placeholder of word 10.

use crate::defs::{excepted, exception_for};
use crate::text::{
    chars_of, copy_range, decimal, decimal_of, matches_at, occurs_at, push_all, replace_first,
    replace_first_in, split_words, views, words,
};
use vstd::prelude::*;

verus! {

/// The token that stands for the excepted word with index `k` among the
/// words of the text.
pub open spec fn placeholder(k: nat) -> Seq<char> {
    "AND_"@ + decimal(k)
}

/// Writes the placeholder for the word with index `k`.
pub fn placeholder_for(k: usize) -> (r: Vec<char>)
    ensures
        r@ == placeholder(k as nat),
{
    let mut out = chars_of("AND_");
    push_all(&mut out, &decimal_of(k));
    out
}

/// The placeholders and replacements held by a list of pairs.
pub open spec fn mark_views(list: Seq<(Vec<char>, Vec<char>)>) -> Seq<(Seq<char>, Seq<char>)> {
    list.map_values(|m: (Vec<char>, Vec<char>)| (m.0@, m.1@))
}

/// The guarding of a text, from word `k` on: `marks` are the pairs
/// recorded so far and `out` the text as protected so far. A word that the
/// table holds has its first occurrence in `out` replaced by its
/// placeholder, and the pair of placeholder and case-adjusted replacement
/// is recorded.
pub open spec fn guard_from(
    list: Seq<Seq<char>>,
    table: Seq<(&'static str, &'static str)>,
    k: int,
    marks: Seq<(Seq<char>, Seq<char>)>,
    out: Seq<char>,
) -> (Seq<(Seq<char>, Seq<char>)>, Seq<char>)
    decreases list.len() - k,
{
    if k < 0 || k >= list.len() {
        (marks, out)
    } else {
        match excepted(table, list[k]) {
            Some(w) => guard_from(
                list,
                table,
                k + 1,
                marks.push((placeholder(k as nat), w)),
                replace_first(out, list[k], placeholder(k as nat)),
            ),
            None => guard_from(list, table, k + 1, marks, out),
        }
    }
}

/// The recorded pairs and the protected text for `text` under `table`.
pub open spec fn guard(text: Seq<char>, table: Seq<(&'static str, &'static str)>) -> (
    Seq<(Seq<char>, Seq<char>)>,
    Seq<char>,
) {
    guard_from(words(text), table, 0, Seq::empty(), text)
}

/// Replaces each whitespace-delimited word of `input` that `table` holds
/// by a placeholder, and returns the pairs of placeholder and replacement
/// together with the protected text.
pub fn replace_exceptions(input: &Vec<char>, table: &[(&'static str, &'static str)]) -> (r: (
    Vec<(Vec<char>, Vec<char>)>,
    Vec<char>,
))
    ensures
        mark_views(r.0@) == guard(input@, table@).0,
        r.1@ == guard(input@, table@).1,
{
    let list = split_words(input);
    let mut marks: Vec<(Vec<char>, Vec<char>)> = Vec::new();
    let mut out = copy_range(input, 0, input.len());
    assert(out@ =~= input@);
    assert(mark_views(marks@) =~= Seq::empty());
    let mut k: usize = 0;
    while k < list.len()
        invariant
            k <= list.len(),
            views(list@) == words(input@),
            guard_from(words(input@), table@, k as int, mark_views(marks@), out@) == guard(
                input@,
                table@,
            ),
        decreases list.len() - k,
    {
        assert(views(list@)[k as int] == list@[k as int]@);
        if let Some(w) = exception_for(table, &list[k]) {
            let token = placeholder_for(k);
            out = replace_first_in(&out, &list[k], &token);
            let ghost before = mark_views(marks@);
            marks.push((token, w));
            assert(mark_views(marks@) =~= before.push((placeholder(k as nat), w@)));
        }
        k += 1;
    }
    (marks, out)
}

/// Pair `k` of `marks` can be restored at position `i` of `text`: its
/// placeholder is not empty and stands there.
pub open spec fn stands_at(
    text: Seq<char>,
    marks: Seq<(Seq<char>, Seq<char>)>,
    k: int,
    i: int,
) -> bool {
    0 <= k < marks.len() && marks[k].0.len() > 0 && occurs_at(text, marks[k].0, i)
}

/// The pair to restore at position `i`, chosen among `best` and the pairs
/// from `k` on: a later pair wins only with a longer placeholder.
pub open spec fn longest_from(
    text: Seq<char>,
    marks: Seq<(Seq<char>, Seq<char>)>,
    i: int,
    k: int,
    best: Option<int>,
) -> Option<int>
    decreases marks.len() - k,
{
    if k < 0 || k >= marks.len() {
        best
    } else if stands_at(text, marks, k, i) && (best.is_none() || marks[k].0.len()
        > marks[best.unwrap()].0.len()) {
        longest_from(text, marks, i, k + 1, Some(k))
    } else {
        longest_from(text, marks, i, k + 1, best)
    }
}

/// The pair to restore at position `i`: the one whose placeholder stands
/// there and is the longest that does, the first of them where several
/// are as long; `None` where no placeholder stands there.
pub open spec fn longest_at(text: Seq<char>, marks: Seq<(Seq<char>, Seq<char>)>, i: int) -> Option<
    int,
> {
    longest_from(text, marks, i, 0, None)
}

/// `best` is the right choice among the pairs before `k`.
pub open spec fn is_longest_before(
    text: Seq<char>,
    marks: Seq<(Seq<char>, Seq<char>)>,
    i: int,
    k: int,
    best: Option<int>,
) -> bool {
    match best {
        Some(b) => b < k && stands_at(text, marks, b, i) && (forall|j: int|
            0 <= j < k && #[trigger] stands_at(text, marks, j, i) ==> marks[j].0.len()
                <= marks[b].0.len()) && (forall|j: int|
            0 <= j < b && #[trigger] stands_at(text, marks, j, i) ==> marks[j].0.len()
                < marks[b].0.len()),
        None => forall|j: int| 0 <= j < k ==> !#[trigger] stands_at(text, marks, j, i),
    }
}

/// The choice made from pair `k` on is the right one among all pairs, if
/// `best` is the right one among those before `k`.
pub proof fn lemma_longest_from(
    text: Seq<char>,
    marks: Seq<(Seq<char>, Seq<char>)>,
    i: int,
    k: int,
    best: Option<int>,
)
    requires
        0 <= k,
        is_longest_before(text, marks, i, k, best),
    ensures
        is_longest_before(
            text,
            marks,
            i,
            marks.len() as int,
            longest_from(text, marks, i, k, best),
        ) || (k > marks.len() && longest_from(text, marks, i, k, best) == best),
    decreases marks.len() - k,
{
    if k < marks.len() {
        if stands_at(text, marks, k, i) && (best.is_none() || marks[k].0.len()
            > marks[best.unwrap()].0.len()) {
            lemma_longest_from(text, marks, i, k + 1, Some(k));
        } else {
            lemma_longest_from(text, marks, i, k + 1, best);
        }
    }
}

/// The pair chosen at a position is one whose placeholder stands there,
/// no other that stands there is longer, and none before it is as long.
pub proof fn lemma_longest_at(text: Seq<char>, marks: Seq<(Seq<char>, Seq<char>)>, i: int)
    ensures
        is_longest_before(text, marks, i, marks.len() as int, longest_at(text, marks, i)),
{
    lemma_longest_from(text, marks, i, 0, None);
}

/// `text` from position `i` on, restored in one pass from left to right:
/// where placeholders stand, the replacement of the longest of them is
/// written and the pass goes on behind that placeholder; any other
/// character is kept.
pub open spec fn restore_from(text: Seq<char>, marks: Seq<(Seq<char>, Seq<char>)>, i: int) -> Seq<
    char,
>
    decreases text.len() - i,
{
    if i < 0 || i >= text.len() {
        Seq::empty()
    } else {
        proof {
            lemma_longest_at(text, marks, i);
        }
        match longest_at(text, marks, i) {
            Some(k) => marks[k].1 + restore_from(text, marks, i + marks[k].0.len()),
            None => seq![text[i]] + restore_from(text, marks, i + 1),
        }
    }
}

/// `text` with every placeholder of `marks` replaced by its own
/// replacement, in one pass from left to right.
pub open spec fn restore(text: Seq<char>, marks: Seq<(Seq<char>, Seq<char>)>) -> Seq<char> {
    restore_from(text, marks, 0)
}

/// An index as a mathematical integer.
pub open spec fn index_of(found: Option<usize>) -> Option<int> {
    match found {
        Some(k) => Some(k as int),
        None => None,
    }
}

/// Finds the pair to restore at position `i`.
pub fn longest_mark(text: &Vec<char>, map: &Vec<(Vec<char>, Vec<char>)>, i: usize) -> (r: Option<
    usize,
>)
    ensures
        index_of(r) == longest_at(text@, mark_views(map@), i as int),
        r.is_some() ==> r.unwrap() < map@.len(),
{
    let mut best: Option<usize> = None;
    let mut k: usize = 0;
    while k < map.len()
        invariant
            k <= map.len(),
            best.is_some() ==> best.unwrap() < k,
            longest_from(text@, mark_views(map@), i as int, k as int, index_of(best))
                == longest_at(text@, mark_views(map@), i as int),
        decreases map.len() - k,
    {
        assert(mark_views(map@)[k as int] == (map@[k as int].0@, map@[k as int].1@));
        let stands = map[k].0.len() > 0 && matches_at(text, &map[k].0, i);
        let longer = match best {
            Some(b) => {
                assert(mark_views(map@)[b as int] == (map@[b as int].0@, map@[b as int].1@));
                map[k].0.len() > map[b].0.len()
            },
            None => true,
        };
        if stands && longer {
            best = Some(k);
        }
        k += 1;
    }
    best
}

/// Puts the recorded replacements in the place of their placeholders, in
/// one pass from left to right. Where one placeholder begins another, the
/// longer one that stands in the text is taken, so that each occurrence
/// gets its own replacement.
pub fn replace_exceptions_back(input: &Vec<char>, map: &Vec<(Vec<char>, Vec<char>)>) -> (r: Vec<
    char,
>)
    ensures
        r@ == restore(input@, mark_views(map@)),
{
    let mut out: Vec<char> = Vec::new();
    let mut i: usize = 0;
    while i < input.len()
        invariant
            i <= input.len(),
            out@ + restore_from(input@, mark_views(map@), i as int) == restore(
                input@,
                mark_views(map@),
            ),
        decreases input.len() - i,
    {
        let ghost before = out@;
        proof {
            lemma_longest_at(input@, mark_views(map@), i as int);
        }
        match longest_mark(input, map, i) {
            Some(k) => {
                assert(mark_views(map@)[k as int] == (map@[k as int].0@, map@[k as int].1@));
                push_all(&mut out, &map[k].1);
                assert(out@ + restore_from(input@, mark_views(map@), i + map@[k as int].0@.len())
                    =~= before + restore_from(input@, mark_views(map@), i as int));
                i += map[k].0.len();
            },
            None => {
                out.push(input[i]);
                assert(out@ + restore_from(input@, mark_views(map@), i + 1) =~= before
                    + restore_from(input@, mark_views(map@), i as int));
                i += 1;
            },
        }
    }
    assert(out@ + restore_from(input@, mark_views(map@), i as int) =~= out@);
    out
}

} // verus!
