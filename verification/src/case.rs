//! Grapheme-indexed slicing and the transfer of letter case from one text to
//! another.
//!
//! Every position in these functions counts extended grapheme clusters,
//! never characters or bytes.

use crate::text::{chars_of, push_all, string_of, views};
use crate::unicode::{graphemes, is_capital, lowercase, split_graphemes, strings, uppercase};
use vstd::prelude::*;

verus! {

/// The lowercase mapping of a text.
pub fn to_lower(text: &Vec<char>) -> (r: Vec<char>)
    ensures
        r@ == lowercase(text@),
{
    let s = string_of(text);
    let lower = s.as_str().to_lowercase();
    chars_of(lower.as_str())
}

/// The uppercase mapping of a text.
pub fn to_upper(text: &Vec<char>) -> (r: Vec<char>)
    ensures
        r@ == uppercase(text@),
{
    let s = string_of(text);
    let upper = s.as_str().to_uppercase();
    chars_of(upper.as_str())
}

/// The extended grapheme clusters of a text, in order. None is empty, and
/// together they spell the text.
pub fn grapheme_clusters(text: &Vec<char>) -> (r: Vec<Vec<char>>)
    ensures
        views(r@) == graphemes(text@),
        views(r@).flatten() == text@,
        forall|i: int| 0 <= i < r@.len() ==> (#[trigger] r@[i])@.len() > 0,
{
    let s = string_of(text);
    let parts = split_graphemes(s.as_str());
    let mut out: Vec<Vec<char>> = Vec::new();
    let mut k: usize = 0;
    while k < parts.len()
        invariant
            k <= parts.len(),
            views(out@) == strings(parts@).take(k as int),
            forall|i: int| 0 <= i < parts@.len() ==> (#[trigger] parts@[i])@.len() > 0,
            forall|i: int| 0 <= i < out@.len() ==> (#[trigger] out@[i])@.len() > 0,
        decreases parts.len() - k,
    {
        let ghost before = views(out@);
        let cluster = chars_of(parts[k].as_str());
        out.push(cluster);
        assert(views(out@) =~= before.push(parts@[k as int]@));
        assert(strings(parts@).take(k + 1) =~= strings(parts@).take(k as int).push(
            parts@[k as int]@,
        ));
        k += 1;
    }
    assert(strings(parts@).take(parts@.len() as int) =~= strings(parts@));
    out
}

/// The clusters `start..end` of `clusters`, joined. Bounds past the end are
/// cut to the end; a reversed range is empty.
pub open spec fn joined(clusters: Seq<Seq<char>>, start: int, end: int) -> Seq<char> {
    if 0 <= start <= end {
        let hi = if end <= clusters.len() {
            end
        } else {
            clusters.len() as int
        };
        let lo = if start <= hi {
            start
        } else {
            hi
        };
        clusters.subrange(lo, hi).flatten()
    } else {
        Seq::empty()
    }
}

/// The grapheme-indexed substring `start..end` of `text`.
pub open spec fn grapheme_slice(text: Seq<char>, start: int, end: int) -> Seq<char> {
    joined(graphemes(text), start, end)
}

/// The number of grapheme clusters of `text`.
pub open spec fn grapheme_len(text: Seq<char>) -> nat {
    graphemes(text).len()
}

/// The grapheme-indexed substring of `text` from `start` to its end.
pub open spec fn grapheme_tail(text: Seq<char>, start: int) -> Seq<char> {
    joined(graphemes(text), start, graphemes(text).len() as int)
}

/// Joins the clusters `start..end` of a cluster list.
pub fn join(clusters: &Vec<Vec<char>>, start: usize, end: usize) -> (r: Vec<char>)
    ensures
        r@ == joined(views(clusters@), start as int, end as int),
{
    let mut out: Vec<char> = Vec::new();
    if start > end {
        return out;
    }
    let hi: usize = if end <= clusters.len() {
        end
    } else {
        clusters.len()
    };
    let lo: usize = if start <= hi {
        start
    } else {
        hi
    };
    let mut k: usize = lo;
    while k < hi
        invariant
            lo <= k <= hi <= clusters.len(),
            out@ == views(clusters@).subrange(lo as int, k as int).flatten(),
        decreases hi - k,
    {
        proof {
            let done = views(clusters@).subrange(lo as int, k as int);
            assert(views(clusters@).subrange(lo as int, k + 1) =~= done.push(clusters@[k as int]@));
            done.lemma_flatten_push(clusters@[k as int]@);
        }
        push_all(&mut out, &clusters[k]);
        k += 1;
    }
    out
}

/// Joins the clusters of a cluster list from `start` on.
pub fn join_from(clusters: &Vec<Vec<char>>, start: usize) -> (r: Vec<char>)
    ensures
        r@ == joined(views(clusters@), start as int, clusters@.len() as int),
{
    join(clusters, start, clusters.len())
}

/// Clusters of which none is empty are no more than the characters they
/// spell.
pub proof fn lemma_clusters_bound(clusters: Seq<Seq<char>>)
    requires
        forall|i: int| 0 <= i < clusters.len() ==> (#[trigger] clusters[i]).len() > 0,
    ensures
        clusters.len() <= clusters.flatten().len(),
    decreases clusters.len(),
{
    if clusters.len() > 0 {
        let rest = clusters.drop_first();
        assert forall|i: int| 0 <= i < rest.len() implies (#[trigger] rest[i]).len() > 0 by {
            assert(rest[i] == clusters[i + 1]);
        }
        lemma_clusters_bound(rest);
        assert(clusters[0].len() > 0);
    }
}

/// The substring of `text` that spans its grapheme clusters `start..end`.
/// Never fails: bounds past the end are cut, a reversed range is empty.
/// The range of all clusters gives the text back.
pub fn slice_graphemes(text: &Vec<char>, start: usize, end: usize) -> (r: Vec<char>)
    ensures
        r@ == grapheme_slice(text@, start as int, end as int),
        start == 0 && end >= grapheme_len(text@) ==> r@ == text@,
{
    let clusters = grapheme_clusters(text);
    assert(views(clusters@).subrange(0, clusters@.len() as int) =~= views(clusters@));
    join(&clusters, start, end)
}

/// The number of grapheme clusters of `text`: at most the number of its
/// characters, and none only where the text is empty.
pub fn count_graphemes(text: &Vec<char>) -> (n: usize)
    ensures
        n == grapheme_len(text@),
        n <= text@.len(),
        n == 0 <==> text@.len() == 0,
{
    let clusters = grapheme_clusters(text);
    proof {
        assert forall|i: int| 0 <= i < views(clusters@).len() implies (#[trigger] views(
            clusters@,
        )[i]).len() > 0 by {
            assert(views(clusters@)[i] == clusters@[i]@);
        }
        lemma_clusters_bound(views(clusters@));
    }
    clusters.len()
}

/// One cluster in the case of its model: upper case where the model's first
/// character is an uppercase letter, lower case otherwise.
pub open spec fn cased(piece: Seq<char>, model: Seq<char>) -> Seq<char> {
    if model.len() > 0 && is_capital(model[0]) {
        uppercase(piece)
    } else {
        lowercase(piece)
    }
}

/// The number of positions at which both cluster lists have a cluster.
pub open spec fn common_len(content: Seq<Seq<char>>, template: Seq<Seq<char>>) -> nat {
    if content.len() <= template.len() {
        content.len()
    } else {
        template.len()
    }
}

/// The clusters of `content`, each in the case of the cluster of `template`
/// at the same position. Clusters without a partner are dropped.
pub open spec fn case_pieces(content: Seq<Seq<char>>, template: Seq<Seq<char>>) -> Seq<
    Seq<char>,
> {
    Seq::new(common_len(content, template), |i: int| cased(content[i], template[i]))
}

/// `content` in the case pattern of `template`, cluster by cluster.
pub open spec fn apply_case(content: Seq<char>, template: Seq<char>) -> Seq<char> {
    case_pieces(graphemes(content), graphemes(template)).flatten()
}

/// Writes the clusters of `content` in the case of the clusters of
/// `template`, position by position, and joins them. The result has as
/// many pieces as the shorter list has clusters.
pub fn transfer_case(content: &Vec<Vec<char>>, template: &Vec<Vec<char>>) -> (r: Vec<char>)
    ensures
        r@ == case_pieces(views(content@), views(template@)).flatten(),
{
    let n: usize = if content.len() <= template.len() {
        content.len()
    } else {
        template.len()
    };
    let ghost pieces = case_pieces(views(content@), views(template@));
    let mut out: Vec<char> = Vec::new();
    let mut i: usize = 0;
    while i < n
        invariant
            i <= n,
            n == common_len(views(content@), views(template@)),
            pieces == case_pieces(views(content@), views(template@)),
            out@ == pieces.take(i as int).flatten(),
        decreases n - i,
    {
        let model = &template[i];
        let piece = if model.len() > 0 && model[0].is_uppercase() {
            to_upper(&content[i])
        } else {
            to_lower(&content[i])
        };
        proof {
            assert(views(content@)[i as int] == content@[i as int]@);
            assert(views(template@)[i as int] == template@[i as int]@);
            assert(piece@ == pieces[i as int]);
            assert(pieces.take(i + 1) =~= pieces.take(i as int).push(pieces[i as int]));
            pieces.take(i as int).lemma_flatten_push(pieces[i as int]);
        }
        push_all(&mut out, &piece);
        i += 1;
    }
    assert(pieces.take(n as int) =~= pieces);
    out
}

/// Writes `input` in the case pattern of `case`, cluster by cluster:
/// upper case where the cluster of `case` at the same position begins with
/// an uppercase letter, lower case elsewhere. What has no partner in the
/// other text is dropped.
pub fn keep_case(input: &Vec<char>, case: &Vec<char>) -> (r: Vec<char>)
    ensures
        r@ == apply_case(input@, case@),
{
    let content = grapheme_clusters(input);
    let template = grapheme_clusters(case);
    transfer_case(&content, &template)
}

/// The circumflexed form of a plain vowel.
pub open spec fn circumflex_char(c: char) -> Option<char> {
    match c {
        'a' => Some('â'),
        'e' => Some('ê'),
        'i' => Some('î'),
        'o' => Some('ô'),
        'u' => Some('û'),
        'A' => Some('Â'),
        'E' => Some('Ê'),
        'I' => Some('Î'),
        'O' => Some('Ô'),
        'U' => Some('Û'),
        _ => None,
    }
}

/// The acute-accented form of a plain vowel.
pub open spec fn acute_char(c: char) -> Option<char> {
    match c {
        'a' => Some('á'),
        'e' => Some('é'),
        'i' => Some('í'),
        'o' => Some('ó'),
        'u' => Some('ú'),
        'A' => Some('Á'),
        'E' => Some('É'),
        'I' => Some('Í'),
        'O' => Some('Ó'),
        'U' => Some('Ú'),
        _ => None,
    }
}

/// A plain vowel with a circumflex; any other text unchanged.
pub open spec fn with_circumflex(vowel: Seq<char>) -> Seq<char> {
    if vowel.len() == 1 && circumflex_char(vowel[0]).is_some() {
        seq![circumflex_char(vowel[0]).unwrap()]
    } else {
        vowel
    }
}

/// A plain vowel with an acute accent; any other text unchanged.
pub open spec fn with_acute(vowel: Seq<char>) -> Seq<char> {
    if vowel.len() == 1 && acute_char(vowel[0]).is_some() {
        seq![acute_char(vowel[0]).unwrap()]
    } else {
        vowel
    }
}

/// Looks a plain vowel up among the circumflexed ones.
fn circumflex_of(c: char) -> (r: Option<char>)
    ensures
        r == circumflex_char(c),
{
    match c {
        'a' => Some('â'),
        'e' => Some('ê'),
        'i' => Some('î'),
        'o' => Some('ô'),
        'u' => Some('û'),
        'A' => Some('Â'),
        'E' => Some('Ê'),
        'I' => Some('Î'),
        'O' => Some('Ô'),
        'U' => Some('Û'),
        _ => None,
    }
}

/// Looks a plain vowel up among the accented ones.
fn acute_of(c: char) -> (r: Option<char>)
    ensures
        r == acute_char(c),
{
    match c {
        'a' => Some('á'),
        'e' => Some('é'),
        'i' => Some('í'),
        'o' => Some('ó'),
        'u' => Some('ú'),
        'A' => Some('Á'),
        'E' => Some('É'),
        'I' => Some('Í'),
        'O' => Some('Ó'),
        'U' => Some('Ú'),
        _ => None,
    }
}

/// Puts a circumflex on a plain vowel and returns anything else unchanged.
pub fn circumflex(vowel: &Vec<char>) -> (r: Vec<char>)
    ensures
        r@ == with_circumflex(vowel@),
{
    let mut out: Vec<char> = Vec::new();
    if vowel.len() == 1 {
        if let Some(marked) = circumflex_of(vowel[0]) {
            out.push(marked);
            assert(out@ =~= seq![marked]);
            return out;
        }
    }
    push_all(&mut out, vowel);
    assert(out@ =~= vowel@);
    out
}

/// Puts an acute accent on a plain vowel and returns anything else
/// unchanged.
pub fn tilde(vowel: &Vec<char>) -> (r: Vec<char>)
    ensures
        r@ == with_acute(vowel@),
{
    let mut out: Vec<char> = Vec::new();
    if vowel.len() == 1 {
        if let Some(marked) = acute_of(vowel[0]) {
            out.push(marked);
            assert(out@ =~= seq![marked]);
            return out;
        }
    }
    push_all(&mut out, vowel);
    assert(out@ =~= vowel@);
    out
}

} // verus!
