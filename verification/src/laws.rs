//! What holds of the pipeline as a whole, proved from the definitions of
//! its parts.

use crate::case::{case_pieces, cased, common_len};
use crate::defs::{excepted, fold, is_vowel};
use crate::grammar::{
    ahead, lemma_letters_bound, lemma_rule_bounds, letters, rule_at, span_texts, spans,
    spans_from, word_start, Phase, Rule, SpanView,
};
use crate::guard::{
    guard, guard_from, lemma_longest_at, longest_at, longest_from, placeholder, restore,
    restore_from, stands_at,
};
use crate::pipeline::{exceptions_of, rewritten, run_from, run_phase, transliterate};
use crate::rules::{rewrite, rewrite_all};
use crate::text::{
    decimal, digit, find, occurs_at, replace_first, word_len, words, words_from,
};
use crate::unicode::{is_capital, is_space, is_word_char, lowercase, uppercase};
use vstd::prelude::*;

verus! {

proof fn lemma_span_texts_step(head: SpanView, rest: Seq<SpanView>)
    ensures
        span_texts(seq![head] + rest) == head.text + span_texts(rest),
        rewrite_all(seq![head] + rest) == rewrite(head.rule, head.text) + rewrite_all(rest),
{
    let all = seq![head] + rest;
    let texts = all.map_values(|s: SpanView| s.text);
    assert(texts.drop_first() =~= rest.map_values(|s: SpanView| s.text));
    let pieces = all.map_values(|s: SpanView| rewrite(s.rule, s.text));
    assert(pieces.drop_first() =~= rest.map_values(|s: SpanView| rewrite(s.rule, s.text)));
}

proof fn lemma_cover_from(phase: Phase, text: Seq<char>, i: int)
    requires
        0 <= i <= text.len(),
    ensures
        span_texts(spans_from(phase, text, i)) == text.subrange(i, text.len() as int),
        forall|k: int|
            0 <= k < spans_from(phase, text, i).len() ==> (#[trigger] spans_from(
                phase,
                text,
                i,
            )[k]).text.len() > 0,
    decreases text.len() - i,
{
    if i >= text.len() {
        assert(text.subrange(i, text.len() as int) =~= Seq::empty());
    } else {
        lemma_rule_bounds(phase, text, i);
        let n = rule_at(phase, text, i).1;
        let head = SpanView { rule: rule_at(phase, text, i).0, text: text.subrange(i, i + n) };
        let rest = spans_from(phase, text, i + n);
        lemma_cover_from(phase, text, i + n);
        lemma_span_texts_step(head, rest);
        assert(head.text + text.subrange(i + n, text.len() as int) =~= text.subrange(
            i,
            text.len() as int,
        ));
        assert forall|k: int| 0 <= k < spans_from(phase, text, i).len() implies (
        #[trigger] spans_from(phase, text, i)[k]).text.len() > 0 by {
            if k > 0 {
                assert(spans_from(phase, text, i)[k] == rest[k - 1]);
            }
        }
    }
}

/// Total coverage. The spans into which a phase divides a text spell the
/// text when joined in order, and none of them is empty; a span that no
/// rule matched is written out as it stands. So a phase changes a text
/// only where one of its rules matched.
pub proof fn lemma_spans_cover(phase: Phase, text: Seq<char>)
    ensures
        span_texts(spans(phase, text)) == text,
        forall|k: int|
            0 <= k < spans(phase, text).len() ==> (#[trigger] spans(phase, text)[k]).text.len()
                > 0,
        forall|k: int|
            0 <= k < spans(phase, text).len() && (#[trigger] spans(phase, text)[k]).rule
                == Rule::Any ==> rewrite(spans(phase, text)[k].rule, spans(phase, text)[k].text)
                == spans(phase, text)[k].text,
{
    lemma_cover_from(phase, text, 0);
    assert(text.subrange(0, text.len() as int) =~= text);
}

proof fn lemma_untouched_from(phase: Phase, text: Seq<char>, i: int)
    requires
        0 <= i <= text.len(),
        forall|j: int| 0 <= j < text.len() ==> (#[trigger] rule_at(phase, text, j)).0 == Rule::Any,
    ensures
        rewrite_all(spans_from(phase, text, i)) == text.subrange(i, text.len() as int),
    decreases text.len() - i,
{
    if i >= text.len() {
        assert(text.subrange(i, text.len() as int) =~= Seq::empty());
    } else {
        lemma_rule_bounds(phase, text, i);
        let n = rule_at(phase, text, i).1;
        let head = SpanView { rule: rule_at(phase, text, i).0, text: text.subrange(i, i + n) };
        let rest = spans_from(phase, text, i + n);
        lemma_untouched_from(phase, text, i + n);
        lemma_span_texts_step(head, rest);
        assert(head.text + text.subrange(i + n, text.len() as int) =~= text.subrange(
            i,
            text.len() as int,
        ));
    }
}

/// A text in which no rule of a phase matches at any position passes
/// through the grammar and the rules of that phase unchanged.
pub proof fn lemma_untouched(phase: Phase, text: Seq<char>)
    requires
        forall|j: int| 0 <= j < text.len() ==> (#[trigger] rule_at(phase, text, j)).0 == Rule::Any,
    ensures
        rewritten(phase, text) == text,
{
    lemma_untouched_from(phase, text, 0);
    assert(text.subrange(0, text.len() as int) =~= text);
}

/// What a phase writes from a position on: where no rule matches, the
/// span as it stands, and where a rule matches, what the rule writes for
/// its span; then what the phase writes from the end of that span on.
/// Nothing else is written, and nothing is left out.
pub proof fn lemma_rewritten_step(phase: Phase, text: Seq<char>, i: int)
    requires
        0 <= i < text.len(),
    ensures
        1 <= rule_at(phase, text, i).1 <= text.len() - i,
        rule_at(phase, text, i).0 == Rule::Any ==> rewrite_all(spans_from(phase, text, i))
            == text.subrange(i, i + rule_at(phase, text, i).1) + rewrite_all(
            spans_from(phase, text, i + rule_at(phase, text, i).1),
        ),
        rewrite_all(spans_from(phase, text, i)) == rewrite(
            rule_at(phase, text, i).0,
            text.subrange(i, i + rule_at(phase, text, i).1),
        ) + rewrite_all(spans_from(phase, text, i + rule_at(phase, text, i).1)),
{
    lemma_rule_bounds(phase, text, i);
    let n = rule_at(phase, text, i).1;
    let head = SpanView { rule: rule_at(phase, text, i).0, text: text.subrange(i, i + n) };
    lemma_span_texts_step(head, spans_from(phase, text, i + n));
}

/// The letters that a phase reads: a text in which none of them stands
/// gives no rule of the phase anything to match. The phases that work on
/// whole words read every letter and digit.
pub open spec fn reads(phase: Phase, c: char) -> bool {
    match phase {
        Phase::Aspirate => fold(c) == 'h',
        Phase::Fricative => fold(c) == 'x',
        Phase::Affricate => fold(c) == 'h',
        Phase::Velar => fold(c) == 'b' || fold(c) == 'v' || fold(c) == 'g' || fold(c) == 'j',
        Phase::Labial => fold(c) == 'v',
        Phase::Palatal => fold(c) == 'l',
        Phase::Liquid => fold(c) == 'l',
        Phase::LearnedPrefix => fold(c) == 'p',
        Phase::Sibilant => fold(c) == 's' || fold(c) == 'z' || fold(c) == 'c',
        Phase::Digraph => is_vowel(fold(c)),
        Phase::WordEnding | Phase::LexicalException | Phase::WordInteraction => is_word_char(c),
    }
}

/// Nothing is rewritten without cause. A text that holds none of the
/// letters that a phase reads passes through the grammar and the rules of
/// the phase unchanged.
pub proof fn lemma_phase_needs_its_letters(phase: Phase, text: Seq<char>)
    requires
        forall|j: int| 0 <= j < text.len() ==> !reads(phase, #[trigger] text[j]),
    ensures
        rewritten(phase, text) == text,
{
    assert forall|j: int| 0 <= j < text.len() implies (#[trigger] rule_at(phase, text, j)).0
        == Rule::Any by {
        assert(!reads(phase, text[j]));
        if j + 1 < text.len() {
            assert(!reads(phase, text[j + 1]));
        }
        if j + 2 < text.len() {
            assert(!reads(phase, text[j + 2]));
        }
    }
    lemma_untouched(phase, text);
}

/// Two texts of one length that agree, place by place, in their folded
/// letters and in which places hold whitespace, letters and digits: the
/// same text but for the case of its letters.
pub open spec fn same_letters(a: Seq<char>, b: Seq<char>) -> bool {
    a.len() == b.len() && forall|i: int|
        #![trigger a[i]]
        #![trigger b[i]]
        0 <= i < a.len() ==> fold(a[i]) == fold(b[i]) && is_space(a[i]) == is_space(b[i])
            && is_word_char(a[i]) == is_word_char(b[i])
}

proof fn lemma_letters_same(a: Seq<char>, b: Seq<char>, i: int)
    requires
        same_letters(a, b),
    ensures
        letters(a, i) == letters(b, i),
    decreases a.len() - i,
{
    if 0 <= i < a.len() {
        assert(is_word_char(a[i]) == is_word_char(b[i]));
        if is_word_char(a[i]) {
            lemma_letters_same(a, b, i + 1);
        }
    }
}

proof fn lemma_ahead_same(a: Seq<char>, b: Seq<char>)
    requires
        same_letters(a, b),
    ensures
        forall|i: int, k: int| #[trigger] ahead(a, i, k) == ahead(b, i, k),
        forall|i: int| #[trigger] word_start(a, i) == word_start(b, i),
{
    assert forall|i: int, k: int| #[trigger] ahead(a, i, k) == ahead(b, i, k) by {
        if 0 <= i + k < a.len() {
            assert(fold(a[i + k]) == fold(b[i + k]));
        }
    }
    assert forall|i: int| #[trigger] word_start(a, i) == word_start(b, i) by {
        if 0 < i <= a.len() {
            assert(is_word_char(a[i - 1]) == is_word_char(b[i - 1]));
        }
    }
}

/// The grammars are blind to case. In two texts that are the same but for
/// the case of their letters, every phase finds the same rule at every
/// position, and the rule takes the same number of characters.
pub proof fn lemma_grammar_ignores_case(phase: Phase, a: Seq<char>, b: Seq<char>, i: int)
    requires
        same_letters(a, b),
    ensures
        rule_at(phase, a, i) == rule_at(phase, b, i),
{
    lemma_ahead_same(a, b);
    lemma_letters_same(a, b, i);
    if 0 <= i && i + 1 < a.len() {
        assert(is_space(a[i + 1]) == is_space(b[i + 1]));
    }
    let n = letters(a, i) as int;
    match phase {
        Phase::WordEnding => {
            if 0 <= i < a.len() {
                lemma_letters_bound(a, i);
                let wa = a.subrange(i, i + n);
                let wb = b.subrange(i, i + n);
                assert forall|k: int| #[trigger] ahead(wa, n, k) == ahead(wb, n, k) by {
                    if 0 <= n + k < n {
                        assert(wa[n + k] == a[i + n + k]);
                        assert(wb[n + k] == b[i + n + k]);
                        assert(fold(a[i + n + k]) == fold(b[i + n + k]));
                    }
                }
            }
        },
        Phase::WordInteraction => {
            if 0 <= i < a.len() {
                lemma_letters_bound(a, i);
                if i + n < a.len() {
                    assert(is_space(a[i + n]) == is_space(b[i + n]));
                }
            }
        },
        _ => {},
    }
}

proof fn lemma_spans_same_from(phase: Phase, a: Seq<char>, b: Seq<char>, i: int)
    requires
        same_letters(a, b),
        0 <= i <= a.len(),
    ensures
        spans_from(phase, a, i).len() == spans_from(phase, b, i).len(),
        forall|k: int|
            #![trigger spans_from(phase, a, i)[k]]
            #![trigger spans_from(phase, b, i)[k]]
            0 <= k < spans_from(phase, a, i).len() ==> spans_from(phase, a, i)[k].rule
                == spans_from(phase, b, i)[k].rule && same_letters(
                spans_from(phase, a, i)[k].text,
                spans_from(phase, b, i)[k].text,
            ),
    decreases a.len() - i,
{
    if i < a.len() {
        lemma_grammar_ignores_case(phase, a, b, i);
        lemma_rule_bounds(phase, a, i);
        let n = rule_at(phase, a, i).1;
        lemma_spans_same_from(phase, a, b, i + n);
        let ta = a.subrange(i, i + n);
        let tb = b.subrange(i, i + n);
        assert(same_letters(ta, tb)) by {
            assert forall|m: int| 0 <= m < ta.len() implies fold(#[trigger] ta[m]) == fold(tb[m])
                && is_space(ta[m]) == is_space(tb[m]) && is_word_char(ta[m]) == is_word_char(
                tb[m],
            ) by {
                assert(ta[m] == a[i + m]);
                assert(tb[m] == b[i + m]);
            }
            assert forall|m: int| 0 <= m < ta.len() implies fold(ta[m]) == fold(#[trigger] tb[m])
                && is_space(ta[m]) == is_space(tb[m]) && is_word_char(ta[m]) == is_word_char(
                tb[m],
            ) by {
                assert(ta[m] == a[i + m]);
                assert(tb[m] == b[i + m]);
            }
        }
        let sa = spans_from(phase, a, i);
        let sb = spans_from(phase, b, i);
        let ra = spans_from(phase, a, i + n);
        let rb = spans_from(phase, b, i + n);
        assert(sa.len() == sb.len());
        assert forall|k: int|
            #![trigger sa[k]]
            #![trigger sb[k]]
            0 <= k < sa.len() implies sa[k].rule == sb[k].rule && same_letters(
            sa[k].text,
            sb[k].text,
        ) by {
            if k > 0 {
                assert(sa[k] == ra[k - 1]);
                assert(sb[k] == rb[k - 1]);
            } else {
                assert(sa[0].text == ta);
                assert(sb[0].text == tb);
            }
        }
    }
}

/// Case preservation in the grammar of every phase. Two texts that are
/// the same but for the case of their letters are divided into the same
/// number of spans, under the same rules, and span by span the texts are
/// again the same but for case. So the case of a word never decides which
/// rule rewrites it, only how the rule's letters are written.
pub proof fn lemma_spans_ignore_case(phase: Phase, a: Seq<char>, b: Seq<char>)
    requires
        same_letters(a, b),
    ensures
        spans(phase, a).len() == spans(phase, b).len(),
        forall|k: int|
            #![trigger spans(phase, a)[k]]
            #![trigger spans(phase, b)[k]]
            0 <= k < spans(phase, a).len() ==> spans(phase, a)[k].rule == spans(phase, b)[k].rule
                && same_letters(spans(phase, a)[k].text, spans(phase, b)[k].text),
{
    lemma_spans_same_from(phase, a, b, 0);
}

/// Case preservation, position by position. Writing the clusters of
/// `content` in the case of the clusters of `template` yields one piece
/// for each position at which both have a cluster, and no more: as many
/// as the shorter of the two has. The piece at a position is the cluster
/// of `content` there, in upper case where the cluster of `template`
/// there begins with an uppercase letter and in lower case otherwise.
pub proof fn lemma_case_mirrored(content: Seq<Seq<char>>, template: Seq<Seq<char>>)
    ensures
        case_pieces(content, template).len() == common_len(content, template),
        common_len(content, template) <= content.len(),
        common_len(content, template) <= template.len(),
        common_len(content, template) == content.len() || common_len(content, template)
            == template.len(),
        forall|i: int|
            0 <= i < common_len(content, template) ==> #[trigger] case_pieces(content, template)[i]
                == cased(content[i], template[i]),
{
}

/// Every cluster begins with an uppercase letter.
pub open spec fn all_capital(template: Seq<Seq<char>>) -> bool {
    forall|i: int|
        0 <= i < template.len() ==> (#[trigger] template[i]).len() > 0 && is_capital(
            template[i][0],
        )
}

/// No cluster begins with an uppercase letter.
pub open spec fn none_capital(template: Seq<Seq<char>>) -> bool {
    forall|i: int|
        0 <= i < template.len() ==> !((#[trigger] template[i]).len() > 0 && is_capital(
            template[i][0],
        ))
}

/// Case preservation for words of one case. In the pattern of a template
/// all in upper case every piece is the uppercase form of its cluster; in
/// the pattern of a template with no uppercase letter every piece is the
/// lowercase form.
pub proof fn lemma_case_uniform(content: Seq<Seq<char>>, template: Seq<Seq<char>>)
    ensures
        all_capital(template) ==> forall|i: int|
            0 <= i < common_len(content, template) ==> #[trigger] case_pieces(content, template)[i]
                == uppercase(content[i]),
        none_capital(template) ==> forall|i: int|
            0 <= i < common_len(content, template) ==> #[trigger] case_pieces(content, template)[i]
                == lowercase(content[i]),
{
    if all_capital(template) {
        assert forall|i: int| 0 <= i < common_len(content, template) implies #[trigger] case_pieces(
            content,
            template,
        )[i] == uppercase(content[i]) by {
            assert(template[i].len() > 0);
        }
    }
    if none_capital(template) {
        assert forall|i: int| 0 <= i < common_len(content, template) implies #[trigger] case_pieces(
            content,
            template,
        )[i] == lowercase(content[i]) by {
            assert(!(template[i].len() > 0 && is_capital(template[i][0])));
        }
    }
}

proof fn lemma_one_word(word: Seq<char>, i: int)
    requires
        0 <= i <= word.len(),
        forall|j: int| 0 <= j < word.len() ==> !is_space(#[trigger] word[j]),
    ensures
        word_len(word, i) == word.len() - i,
    decreases word.len() - i,
{
    if i < word.len() {
        lemma_one_word(word, i + 1);
    }
}

/// A decimal digit.
pub open spec fn is_digit(c: char) -> bool {
    c == '0' || c == '1' || c == '2' || c == '3' || c == '4' || c == '5' || c == '6' || c == '7'
        || c == '8' || c == '9'
}

/// A decimal numeral has at least one character, and all are digits.
pub proof fn lemma_decimal_digits(n: nat)
    ensures
        decimal(n).len() >= 1,
        forall|j: int| 0 <= j < decimal(n).len() ==> is_digit(#[trigger] decimal(n)[j]),
    decreases n,
{
    if n >= 10 {
        lemma_decimal_digits(n / 10);
    }
}

/// The grammar of a guarded phase matches nothing inside a placeholder:
/// wherever the placeholder of a word stands in a text, no rule of the
/// phase begins at any of its characters, whatever stands around it.
pub proof fn lemma_placeholder_inert(phase: Phase, text: Seq<char>, i: int, k: nat, j: int)
    requires
        exceptions_of(phase).is_some(),
        occurs_at(text, placeholder(k), i),
        i <= j < i + placeholder(k).len(),
    ensures
        rule_at(phase, text, j) == (Rule::Any, 1int),
{
    reveal_strlit("AND_");
    lemma_decimal_digits(k);
    let token = placeholder(k);
    assert(token.len() >= 5);
    assert(token[0] == 'A' && token[1] == 'N' && token[2] == 'D' && token[3] == '_');
    assert forall|m: int| 4 <= m < token.len() implies is_digit(#[trigger] token[m]) by {
        assert(token[m] == decimal(k)[m - 4]);
    }
    assert(text.subrange(i, i + token.len())[j - i] == token[j - i]);
    assert(text[j] == token[j - i]);
    if j - i == 1 {
        assert(text.subrange(i, i + token.len())[2] == token[2]);
        assert(text[j + 1] == 'D');
    }
    if j - i >= 4 {
        assert(is_digit(token[j - i]));
    }
}

proof fn lemma_placeholder_untouched(phase: Phase)
    requires
        exceptions_of(phase).is_some(),
    ensures
        rewritten(phase, placeholder(0)) == placeholder(0),
{
    let t = placeholder(0);
    assert(t.subrange(0, t.len() as int) =~= t);
    assert forall|j: int| 0 <= j < t.len() implies (#[trigger] rule_at(phase, t, j)).0
        == Rule::Any by {
        lemma_placeholder_inert(phase, t, 0, 0, j);
    }
    lemma_untouched(phase, t);
}

/// Exception precedence, for a text that is one word. Where the exception
/// table of a phase holds the word, the phase writes what the table holds
/// for it, in the case pattern of the word, and nothing else: the grammar
/// of the phase never sees the word.
pub proof fn lemma_exception_wins(phase: Phase, word: Seq<char>)
    requires
        word.len() > 0,
        forall|j: int| 0 <= j < word.len() ==> !is_space(#[trigger] word[j]),
        exceptions_of(phase).is_some(),
        excepted(exceptions_of(phase).unwrap(), word).is_some(),
    ensures
        run_phase(phase, word) == excepted(exceptions_of(phase).unwrap(), word).unwrap(),
{
    let table = exceptions_of(phase).unwrap();
    let w = excepted(table, word).unwrap();
    let token = placeholder(0);
    reveal_strlit("AND_");
    assert(token.len() == 5);
    // The text has one word: itself.
    lemma_one_word(word, 0);
    assert(word.subrange(0, word.len() as int) =~= word);
    assert(words_from(word, word.len() as int) =~= Seq::empty());
    assert(words(word) =~= seq![word]);
    // Guarding swaps the whole text for the placeholder.
    assert(occurs_at(word, word, 0));
    assert(find(word, word) == Some(0int));
    assert(replace_first(word, word, token) =~= token);
    let marks = Seq::<(Seq<char>, Seq<char>)>::empty().push((token, w));
    assert(guard_from(words(word), table, 1, marks, token) == (marks, token));
    assert(guard(word, table) == (marks, token));
    // The grammar leaves the placeholder alone.
    lemma_placeholder_untouched(phase);
    // Restoring swaps the placeholder for the replacement.
    assert(token.subrange(0, token.len() as int) =~= token);
    assert(stands_at(token, marks, 0, 0));
    assert(longest_from(token, marks, 0, 1, Some(0int)) == Some(0int));
    assert(longest_at(token, marks, 0) == Some(0int));
    assert(restore_from(token, marks, token.len() as int) =~= Seq::empty());
    assert(restore(token, marks) =~= w);
}

/// Each placeholder gets its own replacement. Where the placeholder of
/// pair `k` stands at a position, every other placeholder that stands
/// there is shorter or, if as long, comes later in the list, the pass
/// writes the replacement of pair `k` and goes on behind its placeholder:
/// a placeholder that only begins the one of pair `k` does not take its
/// place.
pub proof fn lemma_restore_own(
    text: Seq<char>,
    marks: Seq<(Seq<char>, Seq<char>)>,
    i: int,
    k: int,
)
    requires
        stands_at(text, marks, k, i),
        forall|j: int|
            0 <= j < k && #[trigger] stands_at(text, marks, j, i) ==> marks[j].0.len()
                < marks[k].0.len(),
        forall|j: int|
            k < j && #[trigger] stands_at(text, marks, j, i) ==> marks[j].0.len()
                <= marks[k].0.len(),
    ensures
        longest_at(text, marks, i) == Some(k),
        restore_from(text, marks, i) == marks[k].1 + restore_from(
            text,
            marks,
            i + marks[k].0.len(),
        ),
{
    lemma_longest_at(text, marks, i);
    let found = longest_at(text, marks, i);
    assert(found.is_some());
    let b = found.unwrap();
    assert(stands_at(text, marks, b, i));
    assert(marks[k].0.len() <= marks[b].0.len());
    if b < k {
        assert(marks[b].0.len() < marks[k].0.len());
    } else if b > k {
        assert(marks[b].0.len() <= marks[k].0.len());
        assert(marks[k].0.len() < marks[b].0.len());
    }
}

/// Where no placeholder stands at a position, the pass keeps the
/// character there and goes on behind it.
pub proof fn lemma_restore_keeps(text: Seq<char>, marks: Seq<(Seq<char>, Seq<char>)>, i: int)
    requires
        0 <= i < text.len(),
        forall|k: int| !#[trigger] stands_at(text, marks, k, i),
    ensures
        restore_from(text, marks, i) == seq![text[i]] + restore_from(text, marks, i + 1),
{
    lemma_longest_at(text, marks, i);
    if longest_at(text, marks, i).is_some() {
        assert(stands_at(text, marks, longest_at(text, marks, i).unwrap(), i));
    }
}

proof fn lemma_longest_shift(
    a: Seq<char>,
    b: Seq<char>,
    marks: Seq<(Seq<char>, Seq<char>)>,
    i: int,
    k: int,
    best: Option<int>,
)
    requires
        0 <= i,
        0 <= k,
        best.is_some() ==> 0 <= best.unwrap() < marks.len(),
    ensures
        longest_from(a + b, marks, a.len() + i, k, best) == longest_from(b, marks, i, k, best),
    decreases marks.len() - k,
{
    if k < marks.len() {
        let pat = marks[k].0;
        if i + pat.len() <= b.len() {
            assert((a + b).subrange(a.len() + i, a.len() + i + pat.len()) =~= b.subrange(
                i,
                i + pat.len(),
            ));
        }
        assert(stands_at(a + b, marks, k, a.len() + i) == stands_at(b, marks, k, i));
        if stands_at(b, marks, k, i) && (best.is_none() || marks[k].0.len()
            > marks[best.unwrap()].0.len()) {
            lemma_longest_shift(a, b, marks, i, k + 1, Some(k));
        } else {
            lemma_longest_shift(a, b, marks, i, k + 1, best);
        }
    }
}

/// The pass looks only ahead: what it writes from a position on depends
/// on the text from that position on, not on what stands before it.
pub proof fn lemma_restore_looks_ahead(
    a: Seq<char>,
    b: Seq<char>,
    marks: Seq<(Seq<char>, Seq<char>)>,
    i: int,
)
    requires
        0 <= i,
    ensures
        restore_from(a + b, marks, a.len() + i) == restore_from(b, marks, i),
    decreases b.len() - i,
{
    if i < b.len() {
        lemma_longest_shift(a, b, marks, i, 0, None);
        lemma_longest_at(b, marks, i);
        match longest_at(b, marks, i) {
            Some(k) => {
                lemma_restore_looks_ahead(a, b, marks, i + marks[k].0.len());
            },
            None => {
                lemma_restore_looks_ahead(a, b, marks, i + 1);
            },
        }
    }
}

proof fn lemma_digit_tells(a: nat, b: nat)
    requires
        a < 10,
        b < 10,
        digit(a) == digit(b),
    ensures
        a == b,
{
}

/// The decimal numeral of a number tells the number.
pub proof fn lemma_decimal_tells(a: nat, b: nat)
    requires
        decimal(a) == decimal(b),
    ensures
        a == b,
    decreases a,
{
    lemma_decimal_digits(a);
    lemma_decimal_digits(b);
    if a < 10 && b < 10 {
        assert(decimal(a)[0] == digit(a));
        assert(decimal(b)[0] == digit(b));
        lemma_digit_tells(a, b);
    } else if a >= 10 && b >= 10 {
        assert(decimal(a).drop_last() =~= decimal(a / 10));
        assert(decimal(b).drop_last() =~= decimal(b / 10));
        assert(decimal(a).last() == digit(a % 10));
        assert(decimal(b).last() == digit(b % 10));
        lemma_decimal_tells(a / 10, b / 10);
        lemma_digit_tells(a % 10, b % 10);
        assert(a == 10 * (a / 10) + a % 10);
        assert(b == 10 * (b / 10) + b % 10);
    } else if a >= 10 {
        lemma_decimal_digits(a / 10);
        assert(decimal(a).len() == decimal(a / 10).len() + 1);
        assert(decimal(b).len() == 1);
    } else {
        lemma_decimal_digits(b / 10);
        assert(decimal(b).len() == decimal(b / 10).len() + 1);
        assert(decimal(a).len() == 1);
    }
}

/// The placeholders of two different words differ.
pub proof fn lemma_placeholders_differ(j: nat, k: nat)
    requires
        j != k,
    ensures
        placeholder(j) != placeholder(k),
{
    reveal_strlit("AND_");
    if placeholder(j) == placeholder(k) {
        assert(placeholder(j).subrange(4, placeholder(j).len() as int) =~= decimal(j));
        assert(placeholder(k).subrange(4, placeholder(k).len() as int) =~= decimal(k));
        lemma_decimal_tells(j, k);
    }
}

proof fn lemma_restore_idle_from(text: Seq<char>, marks: Seq<(Seq<char>, Seq<char>)>, i: int)
    requires
        0 <= i <= text.len(),
        forall|k: int, j: int| !#[trigger] stands_at(text, marks, k, j),
    ensures
        restore_from(text, marks, i) == text.subrange(i, text.len() as int),
    decreases text.len() - i,
{
    if i < text.len() {
        lemma_longest_at(text, marks, i);
        if longest_at(text, marks, i).is_some() {
            assert(stands_at(text, marks, longest_at(text, marks, i).unwrap(), i));
        }
        lemma_restore_idle_from(text, marks, i + 1);
        assert(seq![text[i]] + text.subrange(i + 1, text.len() as int) =~= text.subrange(
            i,
            text.len() as int,
        ));
    } else {
        assert(text.subrange(i, text.len() as int) =~= Seq::empty());
    }
}

/// Restoring changes a text only at placeholders: a text in which no
/// placeholder of the list stands anywhere is given back as it is.
pub proof fn lemma_restore_idle(text: Seq<char>, marks: Seq<(Seq<char>, Seq<char>)>)
    requires
        forall|k: int, j: int| !#[trigger] stands_at(text, marks, k, j),
    ensures
        restore(text, marks) == text,
{
    lemma_restore_idle_from(text, marks, 0);
    assert(text.subrange(0, text.len() as int) =~= text);
}

/// The pairs that guarding records for the words of `list` from word `k`
/// on: for each word that the table holds, its placeholder and its
/// replacement in the case pattern of the word.
pub open spec fn marks_from(
    list: Seq<Seq<char>>,
    table: Seq<(&'static str, &'static str)>,
    k: int,
) -> Seq<(Seq<char>, Seq<char>)>
    decreases list.len() - k,
{
    if k < 0 || k >= list.len() {
        Seq::empty()
    } else {
        match excepted(table, list[k]) {
            Some(w) => seq![(placeholder(k as nat), w)] + marks_from(list, table, k + 1),
            None => marks_from(list, table, k + 1),
        }
    }
}

proof fn lemma_guard_marks(
    list: Seq<Seq<char>>,
    table: Seq<(&'static str, &'static str)>,
    k: int,
    marks: Seq<(Seq<char>, Seq<char>)>,
    out: Seq<char>,
)
    requires
        0 <= k,
    ensures
        guard_from(list, table, k, marks, out).0 == marks + marks_from(list, table, k),
    decreases list.len() - k,
{
    if k >= list.len() {
        assert(marks + marks_from(list, table, k) =~= marks);
    } else {
        match excepted(table, list[k]) {
            Some(w) => {
                let pair = (placeholder(k as nat), w);
                lemma_guard_marks(
                    list,
                    table,
                    k + 1,
                    marks.push(pair),
                    replace_first(out, list[k], placeholder(k as nat)),
                );
                assert(marks.push(pair) + marks_from(list, table, k + 1) =~= marks + (seq![pair]
                    + marks_from(list, table, k + 1)));
            },
            None => {
                lemma_guard_marks(list, table, k + 1, marks, out);
            },
        }
    }
}

proof fn lemma_marks_hold(
    list: Seq<Seq<char>>,
    table: Seq<(&'static str, &'static str)>,
    from: int,
    k: int,
)
    requires
        0 <= from <= k < list.len(),
        excepted(table, list[k]).is_some(),
    ensures
        marks_from(list, table, from).contains(
            (placeholder(k as nat), excepted(table, list[k]).unwrap()),
        ),
    decreases k - from,
{
    let pair = (placeholder(k as nat), excepted(table, list[k]).unwrap());
    let rest = marks_from(list, table, from + 1);
    if from == k {
        assert((seq![pair] + rest)[0] == pair);
    } else {
        lemma_marks_hold(list, table, from + 1, k);
        let j = choose|j: int| 0 <= j < rest.len() && rest[j] == pair;
        match excepted(table, list[from]) {
            Some(w) => {
                let head = (placeholder(from as nat), w);
                assert((seq![head] + rest)[j + 1] == pair);
            },
            None => {},
        }
    }
}

/// `pair` is the placeholder of word `k` of `list` with the replacement
/// that the table holds for that word.
pub open spec fn is_mark_of(
    list: Seq<Seq<char>>,
    table: Seq<(&'static str, &'static str)>,
    pair: (Seq<char>, Seq<char>),
    k: int,
) -> bool {
    0 <= k < list.len() && excepted(table, list[k]).is_some() && pair == (
        placeholder(k as nat),
        excepted(table, list[k]).unwrap(),
    )
}

proof fn lemma_marks_come_from_words(
    list: Seq<Seq<char>>,
    table: Seq<(&'static str, &'static str)>,
    from: int,
    j: int,
)
    requires
        0 <= from,
        0 <= j < marks_from(list, table, from).len(),
    ensures
        exists|k: int| #[trigger] is_mark_of(list, table, marks_from(list, table, from)[j], k),
    decreases list.len() - from,
{
    if from < list.len() {
        let rest = marks_from(list, table, from + 1);
        match excepted(table, list[from]) {
            Some(w) => {
                if j == 0 {
                    assert(is_mark_of(list, table, marks_from(list, table, from)[j], from));
                } else {
                    assert(marks_from(list, table, from)[j] == rest[j - 1]);
                    lemma_marks_come_from_words(list, table, from + 1, j - 1);
                }
            },
            None => {
                lemma_marks_come_from_words(list, table, from + 1, j);
            },
        }
    }
}

/// Exception precedence, in what guarding records. For every word of a
/// text that the table holds, the guard records the word's placeholder
/// with the replacement that the table holds for it, in the case pattern
/// of the word.
pub proof fn lemma_guard_records(text: Seq<char>, table: Seq<(&'static str, &'static str)>)
    ensures
        guard(text, table).0 == marks_from(words(text), table, 0),
        forall|k: int|
            0 <= k < words(text).len() && excepted(table, #[trigger] words(text)[k]).is_some()
                ==> guard(text, table).0.contains(
                (placeholder(k as nat), excepted(table, words(text)[k]).unwrap()),
            ),
{
    let list = words(text);
    lemma_guard_marks(list, table, 0, Seq::empty(), text);
    assert(Seq::<(Seq<char>, Seq<char>)>::empty() + marks_from(list, table, 0) =~= marks_from(
        list,
        table,
        0,
    ));
    assert forall|k: int|
        0 <= k < list.len() && excepted(table, #[trigger] list[k]).is_some() implies guard(
        text,
        table,
    ).0.contains((placeholder(k as nat), excepted(table, list[k]).unwrap())) by {
        lemma_marks_hold(list, table, 0, k);
    }
}

/// The guard records nothing else: each pair that it records is the
/// placeholder of some word of the text that the table holds, with the
/// replacement that the table holds for that word.
pub proof fn lemma_guard_records_only(
    text: Seq<char>,
    table: Seq<(&'static str, &'static str)>,
    j: int,
)
    requires
        0 <= j < guard(text, table).0.len(),
    ensures
        exists|k: int| #[trigger] is_mark_of(words(text), table, guard(text, table).0[j], k),
{
    lemma_guard_records(text, table);
    lemma_marks_come_from_words(words(text), table, 0, j);
}

proof fn lemma_guard_idle(
    list: Seq<Seq<char>>,
    table: Seq<(&'static str, &'static str)>,
    k: int,
    marks: Seq<(Seq<char>, Seq<char>)>,
    out: Seq<char>,
)
    requires
        0 <= k,
        forall|j: int| 0 <= j < list.len() ==> excepted(table, #[trigger] list[j]).is_none(),
    ensures
        guard_from(list, table, k, marks, out) == (marks, out),
    decreases list.len() - k,
{
    if k < list.len() {
        assert(excepted(table, list[k]).is_none());
        lemma_guard_idle(list, table, k + 1, marks, out);
    }
}

/// A text none of whose words the table of a phase holds is not guarded:
/// the phase writes what its grammar and rules make of the text itself.
pub proof fn lemma_unguarded(phase: Phase, text: Seq<char>)
    requires
        exceptions_of(phase).is_some(),
        forall|j: int|
            0 <= j < words(text).len() ==> excepted(
                exceptions_of(phase).unwrap(),
                #[trigger] words(text)[j],
            ).is_none(),
    ensures
        run_phase(phase, text) == rewritten(phase, text),
{
    let table = exceptions_of(phase).unwrap();
    lemma_guard_idle(words(text), table, 0, Seq::empty(), text);
    lemma_restore_idle(rewritten(phase, text), Seq::empty());
}

/// Nothing is rewritten without cause, for a whole phase. A text that
/// holds none of the letters that the phase reads, and no word that its
/// exception table holds, comes out of the phase as it went in.
pub proof fn lemma_phase_idle(phase: Phase, text: Seq<char>)
    requires
        forall|j: int| 0 <= j < text.len() ==> !reads(phase, #[trigger] text[j]),
        exceptions_of(phase).is_some() ==> forall|j: int|
            0 <= j < words(text).len() ==> excepted(
                exceptions_of(phase).unwrap(),
                #[trigger] words(text)[j],
            ).is_none(),
    ensures
        run_phase(phase, text) == text,
{
    lemma_phase_needs_its_letters(phase, text);
    if exceptions_of(phase).is_some() {
        lemma_unguarded(phase, text);
    }
}

/// The order of the phases. The pipeline is the thirteen phases applied
/// one after another, from the mute `h` to the interaction of words, each
/// to what the one before it wrote.
pub proof fn lemma_pipeline_order(text: Seq<char>)
    ensures
        transliterate(text) == run_phase(
            Phase::WordInteraction,
            run_phase(
                Phase::LexicalException,
                run_phase(
                    Phase::Digraph,
                    run_phase(
                        Phase::WordEnding,
                        run_phase(
                            Phase::Sibilant,
                            run_phase(
                                Phase::LearnedPrefix,
                                run_phase(
                                    Phase::Liquid,
                                    run_phase(
                                        Phase::Palatal,
                                        run_phase(
                                            Phase::Labial,
                                            run_phase(
                                                Phase::Velar,
                                                run_phase(
                                                    Phase::Affricate,
                                                    run_phase(
                                                        Phase::Fricative,
                                                        run_phase(Phase::Aspirate, text),
                                                    ),
                                                ),
                                            ),
                                        ),
                                    ),
                                ),
                            ),
                        ),
                    ),
                ),
            ),
        ),
{
    reveal_with_fuel(run_from, 14);
}

/// The empty text. Every phase, and so the pipeline, writes the empty text
/// for the empty text.
pub proof fn lemma_empty_text(phase: Phase)
    ensures
        run_phase(phase, Seq::empty()) == Seq::<char>::empty(),
        transliterate(Seq::empty()) == Seq::<char>::empty(),
{
    let e = Seq::<char>::empty();
    assert forall|p: Phase| run_phase(p, e) == e by {
        assert(spans(p, e) =~= Seq::empty());
        assert(rewrite_all(spans(p, e)) =~= e);
        assert(words(e) =~= Seq::empty());
        if exceptions_of(p).is_some() {
            let table = exceptions_of(p).unwrap();
            assert(guard(e, table) == (Seq::<(Seq<char>, Seq<char>)>::empty(), e));
            assert(restore(e, Seq::empty()) =~= e);
        }
    }
    reveal_with_fuel(run_from, 14);
}

} // verus!
