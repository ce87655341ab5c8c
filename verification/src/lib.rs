//! Transliteration of standard Spanish orthography into EPA, a phonetic
//! spelling of Andalusian.
//!
//! A text runs through thirteen phases in a fixed order, each on the text
//! that the one before it wrote. A phase divides its input into spans with
//! a grammar of its own, rewrites the spans that a rule matched, and joins
//! the results. Four phases first guard the words of an exception table,
//! so that their grammars never see them.
//!
//! - [`pipeline`] holds the phases, one function each, and [`epa`], which
//!   runs them all.
//! - [`grammar`] says which rule applies where; [`rules`] and [`endings`]
//!   say what each rule writes.
//! - [`guard`] protects and restores excepted words.
//! - [`case`] slices texts by grapheme cluster and transfers letter case.
//! - [`defs`] holds the letter classes and the tables.
//! - [`text`] holds plain operations on character sequences.
//! - [`unicode`] names what is taken from the standard library and from
//!   `unicode-segmentation` without proof.
//! - [`laws`] proves what holds of the whole, and [`precedence`] that
//!   guarding and restoring give each excepted word its own replacement.
//!
//! Every function states what it returns as a function of its arguments,
//! over `Seq<char>` as the model of a text. The mapping loses information
//! and is not meant to be applied twice.

pub mod case;
pub mod defs;
pub mod endings;
pub mod grammar;
pub mod guard;
pub mod laws;
pub mod pipeline;
pub mod precedence;
pub mod rules;
pub mod text;
pub mod unicode;

pub use crate::case::{circumflex, keep_case, tilde};
pub use crate::grammar::{AndaluhParser, ParseError, Phase, Rule, Span};
pub use crate::guard::{replace_exceptions, replace_exceptions_back};
pub use crate::pipeline::{
    apply_phase, ch_rule, digraph_rule, epa, exception_rule, gj_rule, h_rule, l_rule, ll_rule,
    psico_rule, v_rule, vaf_rule, word_ending_rule, word_interaction_rule, x_rule,
};
