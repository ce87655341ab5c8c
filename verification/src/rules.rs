//! What each rule writes in place of the span it matched.
//!
//! Every position in a span counts grapheme clusters. A span with fewer
//! clusters than its rule reads is returned unchanged.

use crate::case::{
    apply_case, circumflex, grapheme_clusters, grapheme_len, grapheme_slice, grapheme_tail, join,
    join_from, keep_case, to_lower, with_circumflex,
};
use crate::defs::{find_entry, lookup, ENDING_RULES_EXCEPTION};
use crate::endings::{
    ending_cons, ending_d, ending_ps, ending_s, inter_d, rewrite_ending_cons, rewrite_ending_d,
    rewrite_ending_ps, rewrite_ending_s, rewrite_inter_d,
};
use crate::grammar::{span_views, Rule, Span, SpanView};
use crate::text::{chars_of, copy_range, push_all, spells};
use crate::unicode::lowercase;
use vstd::prelude::*;

verus! {

/// `letters` in the case of the first cluster of a span, then the span
/// from its second cluster on.
pub open spec fn head_replaced(letters: Seq<char>, s: Seq<char>) -> Seq<char> {
    apply_case(letters, grapheme_slice(s, 0, 1)) + grapheme_tail(s, 1)
}

/// `letters` in the case pattern of the whole span, then the span from its
/// second cluster on.
pub open spec fn head_rewritten(letters: Seq<char>, s: Seq<char>) -> Seq<char> {
    apply_case(letters, s) + grapheme_tail(s, 1)
}

/// A mute `h` falls, and the character after it takes its case.
pub open spec fn h_dropped(s: Seq<char>) -> Seq<char> {
    apply_case(grapheme_tail(s, 1), grapheme_slice(s, 0, 1))
}

/// A vowel, `x`, and what follows: the vowel takes a circumflex and the
/// `x` becomes `çç` in its case.
pub open spec fn x_geminated(s: Seq<char>) -> Seq<char> {
    let x = grapheme_slice(s, 1, 2);
    with_circumflex(grapheme_slice(s, 0, 1)) + apply_case("çç"@, x + x) + grapheme_tail(s, 2)
}

/// `gu` before a front vowel loses its silent `u`.
pub open spec fn u_dropped(s: Seq<char>) -> Seq<char> {
    grapheme_slice(s, 0, 1) + grapheme_tail(s, 2)
}

/// `gü` before a front vowel is written with a plain `u`.
pub open spec fn diaeresis_dropped(s: Seq<char>) -> Seq<char> {
    grapheme_slice(s, 0, 1) + apply_case("u"@, grapheme_slice(s, 1, 2)) + grapheme_tail(s, 2)
}

/// A vowel, `l` or `r`, `s`, `t`: the liquid is written `r`, the `s`
/// falls and the `t` is doubled.
pub open spec fn lstrst(s: Seq<char>) -> Seq<char> {
    let liquid = grapheme_slice(s, 1, 2);
    let r = if liquid == "l"@ || liquid == "L"@ {
        apply_case("r"@, liquid)
    } else {
        liquid
    };
    if grapheme_len(s) < 4 {
        s
    } else {
        grapheme_slice(s, 0, 1) + r + grapheme_slice(s, 3, 4) + grapheme_slice(s, 3, 4)
    }
}

/// `trans-` and `post-` before a consonant: the vowel takes a circumflex,
/// `ns` or `st` falls, and the consonant is doubled, an `l` with a hyphen.
pub open spec fn trans(s: Seq<char>) -> Seq<char> {
    let n = grapheme_len(s) as int;
    let cons = grapheme_slice(s, n - 1, n);
    let doubled = if cons == "l"@ || cons == "L"@ {
        cons + "-"@ + cons
    } else {
        cons + cons
    };
    if n < 4 {
        s
    } else {
        grapheme_slice(s, 0, n - 4) + with_circumflex(grapheme_slice(s, n - 4, n - 3)) + doubled
    }
}

/// A vowel, one of `b d n r`, `s`, and a consonant: after `r` the `s`
/// falls and the consonant is doubled; after the others they fall too and
/// the vowel takes a circumflex.
pub open spec fn bdnr(s: Seq<char>) -> Seq<char> {
    let first = grapheme_slice(s, 1, 2);
    if grapheme_len(s) < 4 {
        s
    } else if first == "r"@ || first == "R"@ {
        grapheme_slice(s, 0, 1) + first + grapheme_tail(s, 3) + grapheme_tail(s, 3)
    } else {
        with_circumflex(grapheme_slice(s, 0, 1)) + grapheme_tail(s, 3) + grapheme_tail(s, 3)
    }
}

/// A vowel, a consonant and `l`: the vowel takes a circumflex, the
/// consonant falls, and the `l` is written twice with a hyphen.
pub open spec fn l_hyphenated(s: Seq<char>) -> Seq<char> {
    let l = grapheme_tail(s, 2);
    if grapheme_len(s) < 3 {
        s
    } else {
        with_circumflex(grapheme_slice(s, 0, 1)) + l + "-"@ + l
    }
}

/// A vowel and a consonant pair: the vowel takes a circumflex, the first
/// consonant falls, and the second is doubled.
pub open spec fn geminated(s: Seq<char>) -> Seq<char> {
    if grapheme_len(s) < 3 {
        s
    } else {
        with_circumflex(grapheme_slice(s, 0, 1)) + grapheme_tail(s, 2) + grapheme_tail(s, 2)
    }
}

/// A whole word: what the lexicon holds for its lowercase form, in the
/// case pattern of the word; a word that the lexicon lacks stays as it is.
pub open spec fn lexical(s: Seq<char>) -> Seq<char> {
    match lookup(ENDING_RULES_EXCEPTION@, lowercase(s)) {
        Some(w) => apply_case(w, s),
        None => s,
    }
}

/// A word in `l`, a whitespace character and a consonant: the `l` becomes
/// `r` in its case.
pub open spec fn liaison(s: Seq<char>) -> Seq<char> {
    let n = grapheme_len(s) as int;
    if n < 3 {
        s
    } else {
        grapheme_slice(s, 0, n - 3) + apply_case("r"@, grapheme_slice(s, n - 3, n - 2))
            + grapheme_tail(s, n - 2)
    }
}

/// What `rule` writes in place of a span with text `s`.
pub open spec fn rewrite(rule: Rule, s: Seq<char>) -> Seq<char> {
    match rule {
        Rule::Any => s,
        Rule::InitialH | Rule::InnerH => h_dropped(s),
        Rule::Hue => apply_case("güe"@, s),
        Rule::Hua => apply_case("gua"@, s),
        Rule::InitialX => head_rewritten("ç"@, s),
        Rule::InnerVowelX => x_geminated(s),
        Rule::Ch => apply_case("x"@, s),
        Rule::BueInitial | Rule::Bue => head_replaced("g"@, s),
        Rule::Gjv => head_replaced("h"@, s),
        Rule::Gue => u_dropped(s),
        Rule::GueDiaeresis => diaeresis_dropped(s),
        Rule::Nv => apply_case("mb"@, s),
        Rule::V => apply_case("b"@, s),
        Rule::Ll => apply_case("y"@, s),
        Rule::L => apply_case("r"@, s),
        Rule::Psic | Rule::Pseud => grapheme_tail(s, 1),
        Rule::Zsv | Rule::Cv => head_rewritten("ç"@, s),
        Rule::EndingD => ending_d(s),
        Rule::EndingS => ending_s(s),
        Rule::EndingCons => ending_cons(s),
        Rule::EndingPs => ending_ps(s),
        Rule::InterD => inter_d(s),
        Rule::DigraphLstrst => lstrst(s),
        Rule::DigraphTrans => trans(s),
        Rule::DigraphBdnr => bdnr(s),
        Rule::DigraphL => l_hyphenated(s),
        Rule::GenDigraph => geminated(s),
        Rule::Word => lexical(s),
        Rule::EndingL => liaison(s),
    }
}

/// A copy of the span.
fn unchanged(s: &Vec<char>) -> (r: Vec<char>)
    ensures
        r@ == s@,
{
    let out = copy_range(s, 0, s.len());
    assert(out@ =~= s@);
    out
}

/// `letters` in the case pattern of `model`.
fn recase(letters: &str, model: &Vec<char>) -> (r: Vec<char>)
    ensures
        r@ == apply_case(letters@, model@),
{
    keep_case(&chars_of(letters), model)
}

/// Puts `letters` in the place of the first cluster, in its case.
fn replace_head(letters: &str, s: &Vec<char>) -> (r: Vec<char>)
    ensures
        r@ == head_replaced(letters@, s@),
{
    let clusters = grapheme_clusters(s);
    let mut out = recase(letters, &join(&clusters, 0, 1));
    push_all(&mut out, &join_from(&clusters, 1));
    out
}

/// Puts `letters` in the place of the first cluster, in the case pattern of the span.
fn rewrite_head(letters: &str, s: &Vec<char>) -> (r: Vec<char>)
    ensures
        r@ == head_rewritten(letters@, s@),
{
    let clusters = grapheme_clusters(s);
    let mut out = recase(letters, s);
    push_all(&mut out, &join_from(&clusters, 1));
    out
}

/// Drops a mute `h`.
fn drop_h(s: &Vec<char>) -> (r: Vec<char>)
    ensures
        r@ == h_dropped(s@),
{
    let clusters = grapheme_clusters(s);
    keep_case(&join_from(&clusters, 1), &join(&clusters, 0, 1))
}

/// Writes `x` between vowels as `çç`.
fn geminate_x(s: &Vec<char>) -> (r: Vec<char>)
    ensures
        r@ == x_geminated(s@),
{
    let clusters = grapheme_clusters(s);
    let mut out = circumflex(&join(&clusters, 0, 1));
    let mut model = join(&clusters, 1, 2);
    push_all(&mut model, &join(&clusters, 1, 2));
    push_all(&mut out, &recase("çç", &model));
    push_all(&mut out, &join_from(&clusters, 2));
    out
}

/// Drops the silent `u` after `g`.
fn drop_u(s: &Vec<char>) -> (r: Vec<char>)
    ensures
        r@ == u_dropped(s@),
{
    let clusters = grapheme_clusters(s);
    let mut out = join(&clusters, 0, 1);
    push_all(&mut out, &join_from(&clusters, 2));
    out
}

/// Writes `ü` after `g` as `u`.
fn drop_diaeresis(s: &Vec<char>) -> (r: Vec<char>)
    ensures
        r@ == diaeresis_dropped(s@),
{
    let clusters = grapheme_clusters(s);
    let mut out = join(&clusters, 0, 1);
    push_all(&mut out, &recase("u", &join(&clusters, 1, 2)));
    push_all(&mut out, &join_from(&clusters, 2));
    out
}

/// Drops the first cluster.
fn drop_head(s: &Vec<char>) -> (r: Vec<char>)
    ensures
        r@ == grapheme_tail(s@, 1),
{
    let clusters = grapheme_clusters(s);
    join_from(&clusters, 1)
}

/// Rewrites a vowel, `l` or `r`, `s`, `t`.
fn rewrite_lstrst(s: &Vec<char>) -> (r: Vec<char>)
    ensures
        r@ == lstrst(s@),
{
    let clusters = grapheme_clusters(s);
    if clusters.len() < 4 {
        return unchanged(s);
    }
    let mut out = join(&clusters, 0, 1);
    let liquid = join(&clusters, 1, 2);
    if spells(&liquid, "l") || spells(&liquid, "L") {
        push_all(&mut out, &recase("r", &liquid));
    } else {
        push_all(&mut out, &liquid);
    }
    let t = join(&clusters, 3, 4);
    push_all(&mut out, &t);
    push_all(&mut out, &t);
    out
}

/// Rewrites `trans-` or `post-` before a consonant.
fn rewrite_trans(s: &Vec<char>) -> (r: Vec<char>)
    ensures
        r@ == trans(s@),
{
    let clusters = grapheme_clusters(s);
    let n = clusters.len();
    if n < 4 {
        return unchanged(s);
    }
    let mut out = join(&clusters, 0, n - 4);
    push_all(&mut out, &circumflex(&join(&clusters, n - 4, n - 3)));
    let cons = join(&clusters, n - 1, n);
    push_all(&mut out, &cons);
    if spells(&cons, "l") || spells(&cons, "L") {
        push_all(&mut out, &chars_of("-"));
    }
    push_all(&mut out, &cons);
    assert(out@ =~= trans(s@));
    out
}

/// Rewrites a vowel, one of `b d n r`, `s`, and a consonant.
fn rewrite_bdnr(s: &Vec<char>) -> (r: Vec<char>)
    ensures
        r@ == bdnr(s@),
{
    let clusters = grapheme_clusters(s);
    if clusters.len() < 4 {
        return unchanged(s);
    }
    let vowel = join(&clusters, 0, 1);
    let first = join(&clusters, 1, 2);
    let last = join_from(&clusters, 3);
    let mut out: Vec<char>;
    if spells(&first, "r") || spells(&first, "R") {
        out = vowel;
        push_all(&mut out, &first);
    } else {
        out = circumflex(&vowel);
    }
    push_all(&mut out, &last);
    push_all(&mut out, &last);
    assert(out@ =~= bdnr(s@));
    out
}

/// Rewrites a vowel, a consonant and `l`.
fn hyphenate_l(s: &Vec<char>) -> (r: Vec<char>)
    ensures
        r@ == l_hyphenated(s@),
{
    let clusters = grapheme_clusters(s);
    if clusters.len() < 3 {
        return unchanged(s);
    }
    let mut out = circumflex(&join(&clusters, 0, 1));
    let last = join_from(&clusters, 2);
    push_all(&mut out, &last);
    push_all(&mut out, &chars_of("-"));
    push_all(&mut out, &last);
    out
}

/// Rewrites a vowel and a consonant pair.
fn geminate(s: &Vec<char>) -> (r: Vec<char>)
    ensures
        r@ == geminated(s@),
{
    let clusters = grapheme_clusters(s);
    if clusters.len() < 3 {
        return unchanged(s);
    }
    let mut out = circumflex(&join(&clusters, 0, 1));
    let last = join_from(&clusters, 2);
    push_all(&mut out, &last);
    push_all(&mut out, &last);
    out
}

/// Looks a whole word up in the lexicon.
fn rewrite_word(s: &Vec<char>) -> (r: Vec<char>)
    ensures
        r@ == lexical(s@),
{
    let key = to_lower(s);
    match find_entry(ENDING_RULES_EXCEPTION.as_slice(), &key) {
        Some(w) => recase(w, s),
        None => unchanged(s),
    }
}

/// Rewrites the final `l` of a word before the next word.
fn rewrite_liaison(s: &Vec<char>) -> (r: Vec<char>)
    ensures
        r@ == liaison(s@),
{
    let clusters = grapheme_clusters(s);
    let n = clusters.len();
    if n < 3 {
        return unchanged(s);
    }
    let mut out = join(&clusters, 0, n - 3);
    push_all(&mut out, &recase("r", &join(&clusters, n - 3, n - 2)));
    push_all(&mut out, &join_from(&clusters, n - 2));
    out
}

/// Writes what the rule of a span puts in its place.
pub fn rewrite_span(span: &Span) -> (r: Vec<char>)
    ensures
        r@ == rewrite(span@.rule, span@.text),
{
    let s = &span.text;
    match span.rule {
        Rule::Any => unchanged(s),
        Rule::InitialH | Rule::InnerH => drop_h(s),
        Rule::Hue => recase("güe", s),
        Rule::Hua => recase("gua", s),
        Rule::InitialX => rewrite_head("ç", s),
        Rule::InnerVowelX => geminate_x(s),
        Rule::Ch => recase("x", s),
        Rule::BueInitial | Rule::Bue => replace_head("g", s),
        Rule::Gjv => replace_head("h", s),
        Rule::Gue => drop_u(s),
        Rule::GueDiaeresis => drop_diaeresis(s),
        Rule::Nv => recase("mb", s),
        Rule::V => recase("b", s),
        Rule::Ll => recase("y", s),
        Rule::L => recase("r", s),
        Rule::Psic | Rule::Pseud => drop_head(s),
        Rule::Zsv | Rule::Cv => rewrite_head("ç", s),
        Rule::EndingD => rewrite_ending_d(s),
        Rule::EndingS => rewrite_ending_s(s),
        Rule::EndingCons => rewrite_ending_cons(s),
        Rule::EndingPs => rewrite_ending_ps(s),
        Rule::InterD => rewrite_inter_d(s),
        Rule::DigraphLstrst => rewrite_lstrst(s),
        Rule::DigraphTrans => rewrite_trans(s),
        Rule::DigraphBdnr => rewrite_bdnr(s),
        Rule::DigraphL => hyphenate_l(s),
        Rule::GenDigraph => geminate(s),
        Rule::Word => rewrite_word(s),
        Rule::EndingL => rewrite_liaison(s),
    }
}

/// The rewritten spans of a list, joined.
pub open spec fn rewrite_all(list: Seq<SpanView>) -> Seq<char> {
    list.map_values(|s: SpanView| rewrite(s.rule, s.text)).flatten()
}

/// Rewrites every span of a list and joins the results.
pub fn rewrite_spans(list: &Vec<Span>) -> (r: Vec<char>)
    ensures
        r@ == rewrite_all(span_views(list@)),
{
    let ghost all = span_views(list@);
    let ghost pieces = all.map_values(|s: SpanView| rewrite(s.rule, s.text));
    let mut out: Vec<char> = Vec::new();
    let mut k: usize = 0;
    while k < list.len()
        invariant
            k <= list.len(),
            all == span_views(list@),
            pieces == all.map_values(|s: SpanView| rewrite(s.rule, s.text)),
            out@ == pieces.take(k as int).flatten(),
        decreases list.len() - k,
    {
        let piece = rewrite_span(&list[k]);
        proof {
            assert(piece@ == pieces[k as int]);
            assert(pieces.take(k + 1) =~= pieces.take(k as int).push(pieces[k as int]));
            pieces.take(k as int).lemma_flatten_push(pieces[k as int]);
        }
        push_all(&mut out, &piece);
        k += 1;
    }
    assert(pieces.take(list.len() as int) =~= pieces);
    out
}

} // verus!
