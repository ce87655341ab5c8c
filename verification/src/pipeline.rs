//! The phases and their fixed order.
//!
//! A phase guards the words of its exception table, divides the protected
//! text into spans, rewrites each span, joins the results and restores the
//! guarded words. The pipeline runs the thirteen phases one after another,
//! each on the text that the one before it wrote.

use crate::defs::{GJ_RULES_EXCEPT, H_RULES_EXCEPT, LL_RULES_EXCEPT, V_RULES_EXCEPT};
use crate::grammar::{spans, AndaluhParser, ParseError, Phase};
use crate::guard::{guard, replace_exceptions, replace_exceptions_back, restore};
use crate::rules::{rewrite_all, rewrite_spans};
use crate::text::{chars_of, string_of};
use vstd::prelude::*;

verus! {

/// The phases in the order in which the pipeline runs them.
pub const PIPELINE: [Phase; 13] = [
    Phase::Aspirate,
    Phase::Fricative,
    Phase::Affricate,
    Phase::Velar,
    Phase::Labial,
    Phase::Palatal,
    Phase::Liquid,
    Phase::LearnedPrefix,
    Phase::Sibilant,
    Phase::WordEnding,
    Phase::Digraph,
    Phase::LexicalException,
    Phase::WordInteraction,
];

/// The exception table that guards a phase, for the phases that have one.
pub open spec fn exceptions_of(phase: Phase) -> Option<Seq<(&'static str, &'static str)>> {
    match phase {
        Phase::Aspirate => Some(H_RULES_EXCEPT@),
        Phase::Velar => Some(GJ_RULES_EXCEPT@),
        Phase::Labial => Some(V_RULES_EXCEPT@),
        Phase::Palatal => Some(LL_RULES_EXCEPT@),
        _ => None,
    }
}

/// What the grammar and the rules of `phase` make of `text`, without any
/// guarding: the rewritten spans, joined.
pub open spec fn rewritten(phase: Phase, text: Seq<char>) -> Seq<char> {
    rewrite_all(spans(phase, text))
}

/// What `phase` makes of `text`.
pub open spec fn run_phase(phase: Phase, text: Seq<char>) -> Seq<char> {
    match exceptions_of(phase) {
        Some(table) => restore(rewritten(phase, guard(text, table).1), guard(text, table).0),
        None => rewritten(phase, text),
    }
}

/// What the phases of `order` from index `k` on make of `text`, each
/// taking what the one before it wrote.
pub open spec fn run_from(order: Seq<Phase>, text: Seq<char>, k: int) -> Seq<char>
    decreases order.len() - k,
{
    if k < 0 || k >= order.len() {
        text
    } else {
        run_from(order, run_phase(order[k], text), k + 1)
    }
}

/// The transliteration of `text`: the whole pipeline, in its fixed order.
pub open spec fn transliterate(text: Seq<char>) -> Seq<char> {
    run_from(PIPELINE@, text, 0)
}

/// Divides a text into the spans of a phase and rewrites them.
fn rewrite_text(phase: Phase, input: &Vec<char>) -> (r: Result<Vec<char>, ParseError>)
    ensures
        r.is_ok(),
        r.unwrap()@ == rewritten(phase, input@),
{
    match AndaluhParser::parse(phase, input) {
        Ok(list) => Ok(rewrite_spans(&list)),
        Err(e) => Err(e),
    }
}

/// Runs the grammar and rules of a phase around the guard of its table.
fn guarded(phase: Phase, input: &Vec<char>, table: &[(&'static str, &'static str)]) -> (r: Result<
    Vec<char>,
    ParseError,
>)
    ensures
        r.is_ok(),
        r.unwrap()@ == restore(rewritten(phase, guard(input@, table@).1), guard(input@, table@).0),
{
    let (marks, protected) = replace_exceptions(input, table);
    match rewrite_text(phase, &protected) {
        Ok(out) => Ok(replace_exceptions_back(&out, &marks)),
        Err(e) => Err(e),
    }
}

/// Runs one phase on a text. No text is refused.
pub fn apply_phase(phase: Phase, input: &Vec<char>) -> (r: Result<Vec<char>, ParseError>)
    ensures
        r.is_ok(),
        r.unwrap()@ == run_phase(phase, input@),
{
    match phase {
        Phase::Aspirate => guarded(phase, input, H_RULES_EXCEPT.as_slice()),
        Phase::Velar => guarded(phase, input, GJ_RULES_EXCEPT.as_slice()),
        Phase::Labial => guarded(phase, input, V_RULES_EXCEPT.as_slice()),
        Phase::Palatal => guarded(phase, input, LL_RULES_EXCEPT.as_slice()),
        _ => rewrite_text(phase, input),
    }
}

/// Runs one phase on a string.
fn run(phase: Phase, input: &str) -> (r: Result<String, ParseError>)
    ensures
        r.is_ok(),
        r.unwrap()@ == run_phase(phase, input@),
{
    match apply_phase(phase, &chars_of(input)) {
        Ok(out) => Ok(string_of(&out)),
        Err(e) => Err(e),
    }
}

/// Drops the mute `h`, and writes `hue` and `hua` as `güe` and `gua`.
pub fn h_rule(input: &str) -> (r: Result<String, ParseError>)
    ensures
        r.is_ok(),
        r.unwrap()@ == run_phase(Phase::Aspirate, input@),
{
    run(Phase::Aspirate, input)
}

/// Writes `x` as `ç` at the head of a word and as `çç` between vowels.
pub fn x_rule(input: &str) -> (r: Result<String, ParseError>)
    ensures
        r.is_ok(),
        r.unwrap()@ == run_phase(Phase::Fricative, input@),
{
    run(Phase::Fricative, input)
}

/// Writes `ch` as `x`.
pub fn ch_rule(input: &str) -> (r: Result<String, ParseError>)
    ensures
        r.is_ok(),
        r.unwrap()@ == run_phase(Phase::Affricate, input@),
{
    run(Phase::Affricate, input)
}

/// Aspirates `g` and `j` before vowels, drops the silent `u` of `gue` and
/// `gui`, and softens `bue` to `gue`.
pub fn gj_rule(input: &str) -> (r: Result<String, ParseError>)
    ensures
        r.is_ok(),
        r.unwrap()@ == run_phase(Phase::Velar, input@),
{
    run(Phase::Velar, input)
}

/// Writes `v` as `b` and `nv` as `mb`.
pub fn v_rule(input: &str) -> (r: Result<String, ParseError>)
    ensures
        r.is_ok(),
        r.unwrap()@ == run_phase(Phase::Labial, input@),
{
    run(Phase::Labial, input)
}

/// Writes `ll` as `y`.
pub fn ll_rule(input: &str) -> (r: Result<String, ParseError>)
    ensures
        r.is_ok(),
        r.unwrap()@ == run_phase(Phase::Palatal, input@),
{
    run(Phase::Palatal, input)
}

/// Writes `l` as `r` where it closes a syllable before a consonant.
pub fn l_rule(input: &str) -> (r: Result<String, ParseError>)
    ensures
        r.is_ok(),
        r.unwrap()@ == run_phase(Phase::Liquid, input@),
{
    run(Phase::Liquid, input)
}

/// Drops the `p` of the prefixes `psic-` and `pseud-`.
pub fn psico_rule(input: &str) -> (r: Result<String, ParseError>)
    ensures
        r.is_ok(),
        r.unwrap()@ == run_phase(Phase::LearnedPrefix, input@),
{
    run(Phase::LearnedPrefix, input)
}

/// Writes `s` and `z` before a vowel, and `c` before a front vowel, as
/// `ç`.
pub fn vaf_rule(input: &str) -> (r: Result<String, ParseError>)
    ensures
        r.is_ok(),
        r.unwrap()@ == run_phase(Phase::Sibilant, input@),
{
    run(Phase::Sibilant, input)
}

/// Rewrites the endings of words.
pub fn word_ending_rule(input: &str) -> (r: Result<String, ParseError>)
    ensures
        r.is_ok(),
        r.unwrap()@ == run_phase(Phase::WordEnding, input@),
{
    run(Phase::WordEnding, input)
}

/// Geminates consonant clusters that span a syllable boundary.
pub fn digraph_rule(input: &str) -> (r: Result<String, ParseError>)
    ensures
        r.is_ok(),
        r.unwrap()@ == run_phase(Phase::Digraph, input@),
{
    run(Phase::Digraph, input)
}

/// Replaces the whole words that the lexicon holds.
pub fn exception_rule(input: &str) -> (r: Result<String, ParseError>)
    ensures
        r.is_ok(),
        r.unwrap()@ == run_phase(Phase::LexicalException, input@),
{
    run(Phase::LexicalException, input)
}

/// Writes the final `l` of a word as `r` before a word that begins with a
/// consonant.
pub fn word_interaction_rule(input: &str) -> (r: Result<String, ParseError>)
    ensures
        r.is_ok(),
        r.unwrap()@ == run_phase(Phase::WordInteraction, input@),
{
    run(Phase::WordInteraction, input)
}

/// Transliterates `input`: runs the thirteen phases in their fixed order.
/// The result is a function of the input alone, and the empty text gives
/// the empty text.
pub fn epa(input: &str) -> (r: Result<String, ParseError>)
    ensures
        r.is_ok(),
        r.unwrap()@ == transliterate(input@),
        input@.len() == 0 ==> r.unwrap()@.len() == 0,
{
    proof {
        if input@.len() == 0 {
            assert(input@ =~= Seq::empty());
            crate::laws::lemma_empty_text(Phase::Aspirate);
        }
    }
    let mut output = chars_of(input);
    let mut k: usize = 0;
    while k < PIPELINE.len()
        invariant
            k <= PIPELINE@.len(),
            run_from(PIPELINE@, output@, k as int) == transliterate(input@),
        decreases PIPELINE@.len() - k,
    {
        match apply_phase(PIPELINE[k], &output) {
            Ok(out) => {
                output = out;
            },
            Err(e) => {
                return Err(e);
            },
        }
        k += 1;
    }
    Ok(string_of(&output))
}

} // verus!
