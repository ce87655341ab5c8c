//! The segmentation grammars: for each phase, the rule that applies at each
//! position of a text, and the division of the text into spans.
//!
//! A grammar is a function from a position to a rule and a length. It reads
//! letters through [`fold`], so it matches either case, and it never fails:
//! where no rule of the phase applies the position is passed through.

use crate::defs::{
    drops_before_l, drops_before_l_char, fold, fold_char, is_digraph, is_digraph_pair,
    is_final_consonant, is_final_consonant_char, is_front_vowel, is_front_vowel_char,
    is_geminable, is_geminable_char, is_liaison_consonant, is_liaison_consonant_char, is_vowel,
    is_vowel_char, softens_c, softens_c_char, softens_s, softens_s_char, turns_l, turns_l_char,
};
use crate::text::copy_range;
use crate::unicode::{is_space, is_word_char};
use vstd::prelude::*;

verus! {

/// The phases of the pipeline, in the order in which they run.
#[derive(Clone, Copy, PartialEq, Eq, Structural, Debug)]
pub enum Phase {
    /// The mute `h`.
    Aspirate,
    /// `x` at the head of a word and between vowels.
    Fricative,
    /// The digraph `ch`.
    Affricate,
    /// `g` and `j` before vowels, and `bue`.
    Velar,
    /// `v` and `nv`.
    Labial,
    /// The digraph `ll`.
    Palatal,
    /// `l` at the end of a syllable.
    Liquid,
    /// The prefixes `psic-` and `pseud-`.
    LearnedPrefix,
    /// `s`, `z` and soft `c`.
    Sibilant,
    /// The final vowel and consonant of a word.
    WordEnding,
    /// Consonant pairs across a syllable boundary.
    Digraph,
    /// Whole words with a spelling of their own.
    LexicalException,
    /// The final `l` of a word before the next word.
    WordInteraction,
}

/// What a span is: the rule of its phase that matched it, or `Any` for text
/// that no rule matched.
#[derive(Clone, Copy, PartialEq, Eq, Structural, Debug)]
pub enum Rule {
    /// Text that is passed through as it is.
    Any,
    /// `h` at the head of a word, with the character after it.
    InitialH,
    /// `h` inside a word and not after `c`, with the character after it.
    InnerH,
    /// `hue` not after `c`.
    Hue,
    /// `hua` not after `c`.
    Hua,
    /// `x` at the head of a word.
    InitialX,
    /// A vowel, `x`, and a vowel or `y`.
    InnerVowelX,
    /// `ch`.
    Ch,
    /// `bue` or `vue` at the head of a word.
    BueInitial,
    /// `bue` or `vue` inside a word and not after `m`.
    Bue,
    /// `g` before a front vowel, or `j` before any vowel, with that vowel.
    Gjv,
    /// `gu` before a front vowel, with that vowel.
    Gue,
    /// `gü` before a front vowel, with that vowel.
    GueDiaeresis,
    /// `nv`.
    Nv,
    /// `v`.
    V,
    /// `ll`.
    Ll,
    /// `l` before a consonant that closes its syllable.
    L,
    /// `psic`.
    Psic,
    /// `pseud`.
    Pseud,
    /// `z` or `s` with the vowel after it.
    Zsv,
    /// `c` with the front vowel after it.
    Cv,
    /// A word that ends in a vowel and `d`.
    EndingD,
    /// A word that ends in a vowel and `s`.
    EndingS,
    /// A word that ends in a vowel and another consonant.
    EndingCons,
    /// A word that ends in a vowel and `ps`.
    EndingPs,
    /// A word that ends in `a`, `i` or `í`, then `d`, then `o` or `a`, and
    /// perhaps `s`.
    InterD,
    /// A vowel, `l` or `r`, `s`, `t`.
    DigraphLstrst,
    /// `tr` or `p`, then `a` or `o`, then `ns` or `st`, then a consonant.
    DigraphTrans,
    /// A vowel, one of `b d n r`, `s`, and a consonant.
    DigraphBdnr,
    /// A vowel, one of `d j r s t x z`, and `l`.
    DigraphL,
    /// A vowel and a pair of the digraph set.
    GenDigraph,
    /// A whole word.
    Word,
    /// A word that ends in `l`, one whitespace character, and the consonant
    /// at the head of the next word.
    EndingL,
}

/// A classified run of text.
#[derive(Debug, PartialEq, Eq)]
pub struct Span {
    /// The rule that matched.
    pub rule: Rule,
    /// The text that it matched.
    pub text: Vec<char>,
}

/// A span as a value: its rule and its text.
pub struct SpanView {
    /// The rule that matched.
    pub rule: Rule,
    /// The text that it matched.
    pub text: Seq<char>,
}

impl View for Span {
    type V = SpanView;

    open spec fn view(&self) -> SpanView {
        SpanView { rule: self.rule, text: self.text@ }
    }
}

/// The failure of a grammar to divide a text into spans, with the phase
/// and the position at which it stopped. The grammars of this library pass
/// through what they do not match, so that they divide every text: the
/// functions that return this error say in their contracts that they
/// never do.
#[derive(Clone, Copy, PartialEq, Eq, Structural, Debug)]
pub struct ParseError {
    /// The phase whose grammar failed.
    pub phase: Phase,
    /// The position at which it failed.
    pub position: usize,
}

/// The spans held by a list.
pub open spec fn span_views(list: Seq<Span>) -> Seq<SpanView> {
    list.map_values(|s: Span| s@)
}

/// The folded character `k` places after position `i`, or the null
/// character where the text has none there.
pub open spec fn ahead(text: Seq<char>, i: int, k: int) -> char {
    if 0 <= i + k < text.len() {
        fold(text[i + k])
    } else {
        '\0'
    }
}

/// No letter or digit stands before position `i`.
pub open spec fn word_start(text: Seq<char>, i: int) -> bool {
    i <= 0 || i > text.len() || !is_word_char(text[i - 1])
}

/// The number of letters and digits in a row from position `i` on.
pub open spec fn letters(text: Seq<char>, i: int) -> nat
    decreases text.len() - i,
{
    if 0 <= i < text.len() && is_word_char(text[i]) {
        1 + letters(text, i + 1)
    } else {
        0
    }
}

/// A run of letters ends within the text.
pub proof fn lemma_letters_bound(text: Seq<char>, i: int)
    requires
        0 <= i <= text.len(),
    ensures
        i + letters(text, i) <= text.len(),
    decreases text.len() - i,
{
    if i < text.len() && is_word_char(text[i]) {
        lemma_letters_bound(text, i + 1);
    }
}

/// Reads the folded character `k` places after position `i`.
fn look(text: &Vec<char>, i: usize, k: usize) -> (c: char)
    ensures
        c == ahead(text@, i as int, k as int),
{
    if i < text.len() && k < text.len() - i {
        fold_char(text[i + k])
    } else {
        '\0'
    }
}

/// Reads the folded character before position `i`.
fn look_back(text: &Vec<char>, i: usize) -> (c: char)
    ensures
        c == ahead(text@, i as int, -1),
{
    if 0 < i && i <= text.len() {
        fold_char(text[i - 1])
    } else {
        '\0'
    }
}

/// Whether no letter or digit stands before position `i`.
fn at_word_start(text: &Vec<char>, i: usize) -> (r: bool)
    ensures
        r == word_start(text@, i as int),
{
    i == 0 || i > text.len() || !text[i - 1].is_alphanumeric()
}

/// Counts the letters and digits in a row from position `i` on.
fn count_letters(text: &Vec<char>, i: usize) -> (n: usize)
    requires
        i <= text.len(),
    ensures
        n == letters(text@, i as int),
        i + n <= text.len(),
{
    let mut j: usize = i;
    while j < text.len() && text[j].is_alphanumeric()
        invariant
            i <= j <= text.len(),
            letters(text@, i as int) == (j - i) + letters(text@, j as int),
        decreases text.len() - j,
    {
        j += 1;
    }
    j - i
}

/// The mute `h`: `hue` and `hua` first, then `h` with the character after
/// it, if that is no whitespace. An `h` after `c` belongs to `ch`.
pub open spec fn aspirate_at(text: Seq<char>, i: int) -> (Rule, int) {
    if ahead(text, i, 0) == 'h' && ahead(text, i, -1) != 'c' {
        if ahead(text, i, 1) == 'u' && ahead(text, i, 2) == 'e' {
            (Rule::Hue, 3)
        } else if ahead(text, i, 1) == 'u' && ahead(text, i, 2) == 'a' {
            (Rule::Hua, 3)
        } else {
            (
                if word_start(text, i) {
                    Rule::InitialH
                } else {
                    Rule::InnerH
                },
                if i + 1 < text.len() && !is_space(text[i + 1]) {
                    2
                } else {
                    1
                },
            )
        }
    } else {
        (Rule::Any, 1)
    }
}

/// Matches the rules for the mute `h` at position `i`.
fn aspirate(text: &Vec<char>, i: usize) -> (r: (Rule, usize))
    requires
        i < text.len(),
    ensures
        r.0 == aspirate_at(text@, i as int).0,
        r.1 == aspirate_at(text@, i as int).1,
{
    if look(text, i, 0) == 'h' && look_back(text, i) != 'c' {
        if look(text, i, 1) == 'u' && look(text, i, 2) == 'e' {
            (Rule::Hue, 3)
        } else if look(text, i, 1) == 'u' && look(text, i, 2) == 'a' {
            (Rule::Hua, 3)
        } else {
            let rule = if at_word_start(text, i) {
                Rule::InitialH
            } else {
                Rule::InnerH
            };
            let n: usize = if 1 < text.len() - i && !text[i + 1].is_whitespace() {
                2
            } else {
                1
            };
            (rule, n)
        }
    } else {
        (Rule::Any, 1)
    }
}

/// `x` at the head of a word, and `x` between a vowel and a vowel or `y`.
pub open spec fn fricative_at(text: Seq<char>, i: int) -> (Rule, int) {
    if ahead(text, i, 0) == 'x' && word_start(text, i) {
        (Rule::InitialX, 1)
    } else if is_vowel(ahead(text, i, 0)) && ahead(text, i, 1) == 'x' && (is_vowel(
        ahead(text, i, 2),
    ) || ahead(text, i, 2) == 'y') {
        (Rule::InnerVowelX, 3)
    } else {
        (Rule::Any, 1)
    }
}

/// Matches the rules for `x` at position `i`.
fn fricative(text: &Vec<char>, i: usize) -> (r: (Rule, usize))
    requires
        i < text.len(),
    ensures
        r.0 == fricative_at(text@, i as int).0,
        r.1 == fricative_at(text@, i as int).1,
{
    if look(text, i, 0) == 'x' && at_word_start(text, i) {
        (Rule::InitialX, 1)
    } else if is_vowel_char(look(text, i, 0)) && look(text, i, 1) == 'x' && (is_vowel_char(
        look(text, i, 2),
    ) || look(text, i, 2) == 'y') {
        (Rule::InnerVowelX, 3)
    } else {
        (Rule::Any, 1)
    }
}

/// The digraph `ch`.
pub open spec fn affricate_at(text: Seq<char>, i: int) -> (Rule, int) {
    if ahead(text, i, 0) == 'c' && ahead(text, i, 1) == 'h' {
        (Rule::Ch, 2)
    } else {
        (Rule::Any, 1)
    }
}

/// Matches the rules for `ch` at position `i`.
fn affricate(text: &Vec<char>, i: usize) -> (r: (Rule, usize))
    requires
        i < text.len(),
    ensures
        r.0 == affricate_at(text@, i as int).0,
        r.1 == affricate_at(text@, i as int).1,
{
    if look(text, i, 0) == 'c' && look(text, i, 1) == 'h' {
        (Rule::Ch, 2)
    } else {
        (Rule::Any, 1)
    }
}

/// `bue` and `vue`, which soften to `gue` unless an `m` stands before
/// them; `gu` and `gü` before a front vowel; `g` before a front vowel and
/// `j` before any vowel.
pub open spec fn velar_at(text: Seq<char>, i: int) -> (Rule, int) {
    let c = ahead(text, i, 0);
    let c1 = ahead(text, i, 1);
    let c2 = ahead(text, i, 2);
    if (c == 'b' || c == 'v') && c1 == 'u' && c2 == 'e' {
        if word_start(text, i) {
            (Rule::BueInitial, 3)
        } else if ahead(text, i, -1) != 'm' {
            (Rule::Bue, 3)
        } else {
            (Rule::Any, 1)
        }
    } else if c == 'g' && c1 == 'u' && is_front_vowel(c2) {
        (Rule::Gue, 3)
    } else if c == 'g' && c1 == 'ü' && is_front_vowel(c2) {
        (Rule::GueDiaeresis, 3)
    } else if c == 'g' && is_front_vowel(c1) {
        (Rule::Gjv, 2)
    } else if c == 'j' && is_vowel(c1) {
        (Rule::Gjv, 2)
    } else {
        (Rule::Any, 1)
    }
}

/// Matches the rules for `g`, `j` and `bue` at position `i`.
fn velar(text: &Vec<char>, i: usize) -> (r: (Rule, usize))
    requires
        i < text.len(),
    ensures
        r.0 == velar_at(text@, i as int).0,
        r.1 == velar_at(text@, i as int).1,
{
    let c = look(text, i, 0);
    let c1 = look(text, i, 1);
    let c2 = look(text, i, 2);
    if (c == 'b' || c == 'v') && c1 == 'u' && c2 == 'e' {
        if at_word_start(text, i) {
            (Rule::BueInitial, 3)
        } else if look_back(text, i) != 'm' {
            (Rule::Bue, 3)
        } else {
            (Rule::Any, 1)
        }
    } else if c == 'g' && c1 == 'u' && is_front_vowel_char(c2) {
        (Rule::Gue, 3)
    } else if c == 'g' && c1 == 'ü' && is_front_vowel_char(c2) {
        (Rule::GueDiaeresis, 3)
    } else if c == 'g' && is_front_vowel_char(c1) {
        (Rule::Gjv, 2)
    } else if c == 'j' && is_vowel_char(c1) {
        (Rule::Gjv, 2)
    } else {
        (Rule::Any, 1)
    }
}

/// `nv`, and any other `v`.
pub open spec fn labial_at(text: Seq<char>, i: int) -> (Rule, int) {
    if ahead(text, i, 0) == 'n' && ahead(text, i, 1) == 'v' {
        (Rule::Nv, 2)
    } else if ahead(text, i, 0) == 'v' {
        (Rule::V, 1)
    } else {
        (Rule::Any, 1)
    }
}

/// Matches the rules for `v` at position `i`.
fn labial(text: &Vec<char>, i: usize) -> (r: (Rule, usize))
    requires
        i < text.len(),
    ensures
        r.0 == labial_at(text@, i as int).0,
        r.1 == labial_at(text@, i as int).1,
{
    if look(text, i, 0) == 'n' && look(text, i, 1) == 'v' {
        (Rule::Nv, 2)
    } else if look(text, i, 0) == 'v' {
        (Rule::V, 1)
    } else {
        (Rule::Any, 1)
    }
}

/// The digraph `ll`.
pub open spec fn palatal_at(text: Seq<char>, i: int) -> (Rule, int) {
    if ahead(text, i, 0) == 'l' && ahead(text, i, 1) == 'l' {
        (Rule::Ll, 2)
    } else {
        (Rule::Any, 1)
    }
}

/// Matches the rules for `ll` at position `i`.
fn palatal(text: &Vec<char>, i: usize) -> (r: (Rule, usize))
    requires
        i < text.len(),
    ensures
        r.0 == palatal_at(text@, i as int).0,
        r.1 == palatal_at(text@, i as int).1,
{
    if look(text, i, 0) == 'l' && look(text, i, 1) == 'l' {
        (Rule::Ll, 2)
    } else {
        (Rule::Any, 1)
    }
}

/// `l` before a consonant that closes its syllable. The span is the `l`
/// alone.
pub open spec fn liquid_at(text: Seq<char>, i: int) -> (Rule, int) {
    if ahead(text, i, 0) == 'l' && turns_l(ahead(text, i, 1)) {
        (Rule::L, 1)
    } else {
        (Rule::Any, 1)
    }
}

/// Matches the rules for `l` before a consonant at position `i`.
fn liquid(text: &Vec<char>, i: usize) -> (r: (Rule, usize))
    requires
        i < text.len(),
    ensures
        r.0 == liquid_at(text@, i as int).0,
        r.1 == liquid_at(text@, i as int).1,
{
    if look(text, i, 0) == 'l' && turns_l_char(look(text, i, 1)) {
        (Rule::L, 1)
    } else {
        (Rule::Any, 1)
    }
}

/// `psic` and `pseud`, wherever they stand: the prefix may follow another.
pub open spec fn learned_prefix_at(text: Seq<char>, i: int) -> (Rule, int) {
    if ahead(text, i, 0) == 'p' && ahead(text, i, 1) == 's' {
        if ahead(text, i, 2) == 'i' && ahead(text, i, 3) == 'c' {
            (Rule::Psic, 4)
        } else if ahead(text, i, 2) == 'e' && ahead(text, i, 3) == 'u' && ahead(text, i, 4)
            == 'd' {
            (Rule::Pseud, 5)
        } else {
            (Rule::Any, 1)
        }
    } else {
        (Rule::Any, 1)
    }
}

/// Matches the rules for `psic` and `pseud` at position `i`.
fn learned_prefix(text: &Vec<char>, i: usize) -> (r: (Rule, usize))
    requires
        i < text.len(),
    ensures
        r.0 == learned_prefix_at(text@, i as int).0,
        r.1 == learned_prefix_at(text@, i as int).1,
{
    if look(text, i, 0) == 'p' && look(text, i, 1) == 's' {
        if look(text, i, 2) == 'i' && look(text, i, 3) == 'c' {
            (Rule::Psic, 4)
        } else if look(text, i, 2) == 'e' && look(text, i, 3) == 'u' && look(text, i, 4) == 'd' {
            (Rule::Pseud, 5)
        } else {
            (Rule::Any, 1)
        }
    } else {
        (Rule::Any, 1)
    }
}

/// `z` and `s` before a vowel, and `c` before a front vowel, each with that
/// vowel.
pub open spec fn sibilant_at(text: Seq<char>, i: int) -> (Rule, int) {
    let c = ahead(text, i, 0);
    if (c == 'z' || c == 's') && softens_s(ahead(text, i, 1)) {
        (Rule::Zsv, 2)
    } else if c == 'c' && softens_c(ahead(text, i, 1)) {
        (Rule::Cv, 2)
    } else {
        (Rule::Any, 1)
    }
}

/// Matches the rules for `s`, `z` and soft `c` at position `i`.
fn sibilant(text: &Vec<char>, i: usize) -> (r: (Rule, usize))
    requires
        i < text.len(),
    ensures
        r.0 == sibilant_at(text@, i as int).0,
        r.1 == sibilant_at(text@, i as int).1,
{
    let c = look(text, i, 0);
    if (c == 'z' || c == 's') && softens_s_char(look(text, i, 1)) {
        (Rule::Zsv, 2)
    } else if c == 'c' && softens_c_char(look(text, i, 1)) {
        (Rule::Cv, 2)
    } else {
        (Rule::Any, 1)
    }
}

/// The rule for a whole word, read off its last letters. A word in vowel
/// and consonant needs a letter before them; a word in `-ado` and the like
/// does not.
pub open spec fn ending_of(word: Seq<char>) -> Rule {
    let n = word.len() as int;
    let z = ahead(word, n, -1);
    let y = ahead(word, n, -2);
    let x = ahead(word, n, -3);
    let w = ahead(word, n, -4);
    if (z == 'o' || z == 'a') && y == 'd' && (x == 'a' || x == 'i' || x == 'í') {
        Rule::InterD
    } else if z == 's' && (y == 'o' || y == 'a') && x == 'd' && (w == 'a' || w == 'i' || w
        == 'í') {
        Rule::InterD
    } else if n >= 4 && z == 's' && y == 'p' && is_vowel(x) {
        Rule::EndingPs
    } else if n >= 3 && is_vowel(y) && z == 'd' {
        Rule::EndingD
    } else if n >= 3 && is_vowel(y) && z == 's' {
        Rule::EndingS
    } else if n >= 3 && is_vowel(y) && is_final_consonant(z) {
        Rule::EndingCons
    } else {
        Rule::Any
    }
}

/// Reads the folded character `k` places before the end of `word`.
fn look_end(word: &Vec<char>, k: usize) -> (c: char)
    requires
        k >= 1,
    ensures
        c == ahead(word@, word@.len() as int, -(k as int)),
{
    if k <= word.len() {
        fold_char(word[word.len() - k])
    } else {
        '\0'
    }
}

/// Classifies a word by its ending.
pub fn classify_ending(word: &Vec<char>) -> (r: Rule)
    ensures
        r == ending_of(word@),
{
    let n = word.len();
    let z = look_end(word, 1);
    let y = look_end(word, 2);
    let x = look_end(word, 3);
    let w = look_end(word, 4);
    if (z == 'o' || z == 'a') && y == 'd' && (x == 'a' || x == 'i' || x == 'í') {
        Rule::InterD
    } else if z == 's' && (y == 'o' || y == 'a') && x == 'd' && (w == 'a' || w == 'i' || w
        == 'í') {
        Rule::InterD
    } else if n >= 4 && z == 's' && y == 'p' && is_vowel_char(x) {
        Rule::EndingPs
    } else if n >= 3 && is_vowel_char(y) && z == 'd' {
        Rule::EndingD
    } else if n >= 3 && is_vowel_char(y) && z == 's' {
        Rule::EndingS
    } else if n >= 3 && is_vowel_char(y) && is_final_consonant_char(z) {
        Rule::EndingCons
    } else {
        Rule::Any
    }
}

/// A whole word, classified by its ending; a word of no class, and any
/// character outside words, is passed through.
pub open spec fn word_ending_at(text: Seq<char>, i: int) -> (Rule, int) {
    if letters(text, i) > 0 && word_start(text, i) {
        (ending_of(text.subrange(i, i + letters(text, i))), letters(text, i) as int)
    } else {
        (Rule::Any, 1)
    }
}

/// Matches the rules for word endings at position `i`.
fn word_ending(text: &Vec<char>, i: usize) -> (r: (Rule, usize))
    requires
        i < text.len(),
    ensures
        r.0 == word_ending_at(text@, i as int).0,
        r.1 == word_ending_at(text@, i as int).1,
{
    let n = count_letters(text, i);
    if n > 0 && at_word_start(text, i) {
        let word = copy_range(text, i, i + n);
        (classify_ending(&word), n)
    } else {
        (Rule::Any, 1)
    }
}

/// After `tr` or `p`: `a` or `o`, then `ns` or `st`, then a consonant.
pub open spec fn trans_tail(text: Seq<char>, j: int) -> bool {
    let v = ahead(text, j, 0);
    let a = ahead(text, j, 1);
    let b = ahead(text, j, 2);
    (v == 'a' || v == 'o') && ((a == 'n' && b == 's') || (a == 's' && b == 't')) && is_geminable(
        ahead(text, j, 3),
    )
}

/// Whether the tail of `trans-` or `post-` stands `k` places after `i`.
fn has_trans_tail(text: &Vec<char>, i: usize, k: usize) -> (r: bool)
    requires
        i < text.len(),
        k <= 2,
    ensures
        r == trans_tail(text@, i + k),
{
    let v = look(text, i, k);
    let a = look(text, i, k + 1);
    let b = look(text, i, k + 2);
    (v == 'a' || v == 'o') && ((a == 'n' && b == 's') || (a == 's' && b == 't'))
        && is_geminable_char(look(text, i, k + 3))
}

/// The consonant clusters that geminate: the four special patterns first,
/// then a vowel before any pair of the digraph set.
pub open spec fn digraph_at(text: Seq<char>, i: int) -> (Rule, int) {
    let c = ahead(text, i, 0);
    let c1 = ahead(text, i, 1);
    let c2 = ahead(text, i, 2);
    let c3 = ahead(text, i, 3);
    if is_vowel(c) {
        if (c1 == 'l' || c1 == 'r') && c2 == 's' && c3 == 't' {
            (Rule::DigraphLstrst, 4)
        } else if (c1 == 'b' || c1 == 'd' || c1 == 'n' || c1 == 'r') && c2 == 's'
            && is_geminable(c3) {
            (Rule::DigraphBdnr, 4)
        } else if drops_before_l(c1) && c2 == 'l' {
            (Rule::DigraphL, 3)
        } else if is_digraph(c1, c2) {
            (Rule::GenDigraph, 3)
        } else {
            (Rule::Any, 1)
        }
    } else if c == 't' && c1 == 'r' && trans_tail(text, i + 2) {
        (Rule::DigraphTrans, 6)
    } else if c == 'p' && trans_tail(text, i + 1) {
        (Rule::DigraphTrans, 5)
    } else {
        (Rule::Any, 1)
    }
}

/// Matches the rules for consonant clusters at position `i`.
fn digraph(text: &Vec<char>, i: usize) -> (r: (Rule, usize))
    requires
        i < text.len(),
    ensures
        r.0 == digraph_at(text@, i as int).0,
        r.1 == digraph_at(text@, i as int).1,
{
    let c = look(text, i, 0);
    let c1 = look(text, i, 1);
    let c2 = look(text, i, 2);
    let c3 = look(text, i, 3);
    if is_vowel_char(c) {
        if (c1 == 'l' || c1 == 'r') && c2 == 's' && c3 == 't' {
            (Rule::DigraphLstrst, 4)
        } else if (c1 == 'b' || c1 == 'd' || c1 == 'n' || c1 == 'r') && c2 == 's'
            && is_geminable_char(c3) {
            (Rule::DigraphBdnr, 4)
        } else if drops_before_l_char(c1) && c2 == 'l' {
            (Rule::DigraphL, 3)
        } else if is_digraph_pair(c1, c2) {
            (Rule::GenDigraph, 3)
        } else {
            (Rule::Any, 1)
        }
    } else if c == 't' && c1 == 'r' && has_trans_tail(text, i, 2) {
        (Rule::DigraphTrans, 6)
    } else if c == 'p' && has_trans_tail(text, i, 1) {
        (Rule::DigraphTrans, 5)
    } else {
        (Rule::Any, 1)
    }
}

/// Every whole word; any character outside words is passed through.
pub open spec fn lexical_at(text: Seq<char>, i: int) -> (Rule, int) {
    if letters(text, i) > 0 && word_start(text, i) {
        (Rule::Word, letters(text, i) as int)
    } else {
        (Rule::Any, 1)
    }
}

/// Matches the rules for whole words at position `i`.
fn lexical(text: &Vec<char>, i: usize) -> (r: (Rule, usize))
    requires
        i < text.len(),
    ensures
        r.0 == lexical_at(text@, i as int).0,
        r.1 == lexical_at(text@, i as int).1,
{
    let n = count_letters(text, i);
    if n > 0 && at_word_start(text, i) {
        (Rule::Word, n)
    } else {
        (Rule::Any, 1)
    }
}

/// A word in `l` before one whitespace character and a word that begins
/// with a consonant other than `r`: the span takes the word, the
/// whitespace and that consonant. Any other word is passed through whole.
pub open spec fn interaction_at(text: Seq<char>, i: int) -> (Rule, int) {
    let n = letters(text, i) as int;
    if n > 0 && word_start(text, i) {
        if ahead(text, i + n, -1) == 'l' && i + n + 1 < text.len() && is_space(text[i + n])
            && is_liaison_consonant(ahead(text, i + n, 1)) {
            (Rule::EndingL, n + 2)
        } else {
            (Rule::Any, n)
        }
    } else {
        (Rule::Any, 1)
    }
}

/// Matches the rules for a final `l` before the next word at position `i`.
fn interaction(text: &Vec<char>, i: usize) -> (r: (Rule, usize))
    requires
        i < text.len(),
    ensures
        r.0 == interaction_at(text@, i as int).0,
        r.1 == interaction_at(text@, i as int).1,
{
    let n = count_letters(text, i);
    if n > 0 && at_word_start(text, i) {
        if look_back(text, i + n) == 'l' && 1 < text.len() - (i + n) && text[i
            + n].is_whitespace() && is_liaison_consonant_char(look(text, i + n, 1)) {
            (Rule::EndingL, n + 2)
        } else {
            (Rule::Any, n)
        }
    } else {
        (Rule::Any, 1)
    }
}

/// The rule of `phase` that applies at position `i` of `text`, and the
/// number of characters it takes.
pub open spec fn rule_at(phase: Phase, text: Seq<char>, i: int) -> (Rule, int) {
    match phase {
        Phase::Aspirate => aspirate_at(text, i),
        Phase::Fricative => fricative_at(text, i),
        Phase::Affricate => affricate_at(text, i),
        Phase::Velar => velar_at(text, i),
        Phase::Labial => labial_at(text, i),
        Phase::Palatal => palatal_at(text, i),
        Phase::Liquid => liquid_at(text, i),
        Phase::LearnedPrefix => learned_prefix_at(text, i),
        Phase::Sibilant => sibilant_at(text, i),
        Phase::WordEnding => word_ending_at(text, i),
        Phase::Digraph => digraph_at(text, i),
        Phase::LexicalException => lexical_at(text, i),
        Phase::WordInteraction => interaction_at(text, i),
    }
}

/// A rule takes at least one character and stays within the text.
pub proof fn lemma_rule_bounds(phase: Phase, text: Seq<char>, i: int)
    requires
        0 <= i < text.len(),
    ensures
        1 <= rule_at(phase, text, i).1 <= text.len() - i,
{
    lemma_letters_bound(text, i);
}

/// Finds the rule of `phase` that applies at position `i`, and the number
/// of characters that it takes: at least one, and within the text. Past
/// the end of the text no rule applies.
pub fn match_at(phase: Phase, text: &Vec<char>, i: usize) -> (r: (Rule, usize))
    ensures
        r.0 == rule_at(phase, text@, i as int).0,
        r.1 == rule_at(phase, text@, i as int).1,
        i < text.len() ==> 1 <= r.1 <= text.len() - i,
        i >= text.len() ==> r == (Rule::Any, 1usize),
{
    if i >= text.len() {
        return (Rule::Any, 1);
    }
    proof {
        lemma_rule_bounds(phase, text@, i as int);
    }
    match phase {
        Phase::Aspirate => aspirate(text, i),
        Phase::Fricative => fricative(text, i),
        Phase::Affricate => affricate(text, i),
        Phase::Velar => velar(text, i),
        Phase::Labial => labial(text, i),
        Phase::Palatal => palatal(text, i),
        Phase::Liquid => liquid(text, i),
        Phase::LearnedPrefix => learned_prefix(text, i),
        Phase::Sibilant => sibilant(text, i),
        Phase::WordEnding => word_ending(text, i),
        Phase::Digraph => digraph(text, i),
        Phase::LexicalException => lexical(text, i),
        Phase::WordInteraction => interaction(text, i),
    }
}

/// The spans into which `phase` divides `text` from position `i` on.
pub open spec fn spans_from(phase: Phase, text: Seq<char>, i: int) -> Seq<SpanView>
    decreases text.len() - i,
{
    if i < 0 || i >= text.len() {
        Seq::empty()
    } else {
        proof {
            lemma_rule_bounds(phase, text, i);
        }
        seq![
            SpanView {
                rule: rule_at(phase, text, i).0,
                text: text.subrange(i, i + rule_at(phase, text, i).1),
            },
        ] + spans_from(phase, text, i + rule_at(phase, text, i).1)
    }
}

/// The spans into which `phase` divides `text`: at each position the rule
/// that applies there, then on from the end of its span.
pub open spec fn spans(phase: Phase, text: Seq<char>) -> Seq<SpanView> {
    spans_from(phase, text, 0)
}

/// The texts of a list of spans, joined.
pub open spec fn span_texts(list: Seq<SpanView>) -> Seq<char> {
    list.map_values(|s: SpanView| s.text).flatten()
}

/// The segmentation grammars of the pipeline.
pub struct AndaluhParser;

impl AndaluhParser {
    /// Divides `input` into the spans of `phase`. Every text has such a
    /// division: what no rule matches is passed through, so no input is
    /// refused.
    pub fn parse(phase: Phase, input: &Vec<char>) -> (r: Result<Vec<Span>, ParseError>)
        ensures
            r.is_ok(),
            span_views(r.unwrap()@) == spans(phase, input@),
    {
        let mut out: Vec<Span> = Vec::new();
        let mut i: usize = 0;
        while i < input.len()
            invariant
                i <= input.len(),
                span_views(out@) + spans_from(phase, input@, i as int) == spans(phase, input@),
            decreases input.len() - i,
        {
            let ghost before = span_views(out@);
            let (rule, n) = match_at(phase, input, i);
            let text = copy_range(input, i, i + n);
            out.push(Span { rule, text });
            assert(span_views(out@) =~= before.push(
                SpanView { rule, text: input@.subrange(i as int, i + n) },
            ));
            assert(span_views(out@) + spans_from(phase, input@, i + n) =~= before + spans_from(
                phase,
                input@,
                i as int,
            ));
            i += n;
        }
        assert(span_views(out@) + spans_from(phase, input@, i as int) =~= span_views(out@));
        Ok(out)
    }
}

} // verus!
