//! The fixed tables of the transliteration: letter classes, the marked
//! vowels of word endings, the consonant pairs that geminate, and the
//! exception lexicons of the phases.

use crate::case::{apply_case, keep_case, to_lower};
use crate::text::{chars_of, spells};
use crate::unicode::lowercase;
use vstd::prelude::*;

verus! {

/// Words that keep their `h` or lose it in a way of their own.
pub const H_RULES_EXCEPT: [(&'static str, &'static str); 6] = [
    ("haz", "âh"),
    ("hez", "êh"),
    ("hoz", "ôh"),
    ("oh", "ôh"),
    ("yihad", "yihá"),
    ("h", "h"),
];

/// Loanwords whose `g` or `j` is not aspirated.
pub const GJ_RULES_EXCEPT: [(&'static str, &'static str); 3] = [
    ("gin", "yin"),
    ("jazz", "yâh"),
    ("jet", "yêh"),
];

/// Words whose `v` is rewritten together with their ending.
pub const V_RULES_EXCEPT: [(&'static str, &'static str); 2] = [
    ("vis", "bî"),
    ("ves", "bêh"),
];

/// Loanwords whose `ll` is not a palatal.
pub const LL_RULES_EXCEPT: [(&'static str, &'static str); 1] = [
    ("grill", "grîh"),
];

/// Words in vowel and `d` with an ending of their own.
pub const WORDEND_D_RULES_EXCEPT: [(&'static str, &'static str); 1] = [
    ("çed", "çêh"),
];

/// Words in vowel and `s` with an ending of their own.
pub const WORDEND_S_RULES_EXCEPT: [(&'static str, &'static str); 21] = [
    ("bies", "biêh"),
    ("bis", "bîh"),
    ("blues", "blû"),
    ("bus", "bûh"),
    ("dios", "diôh"),
    ("dos", "dôh"),
    ("gas", "gâh"),
    ("gres", "grêh"),
    ("gris", "grîh"),
    ("luis", "luîh"),
    ("mies", "miêh"),
    ("mus", "mûh"),
    ("os", "ô"),
    ("pis", "pîh"),
    ("plus", "plûh"),
    ("pus", "pûh"),
    ("ras", "râh"),
    ("res", "rêh"),
    ("tos", "tôh"),
    ("tres", "trêh"),
    ("tris", "trîh"),
];

/// Words in vowel and consonant with an ending of their own.
pub const WORDEND_CONST_RULES_EXCEPT: [(&'static str, &'static str); 15] = [
    ("al", "al"),
    ("cual", "cuâ"),
    ("del", "del"),
    ("dél", "dél"),
    ("el", "el"),
    ("él", "èl"),
    ("tal", "tal"),
    ("bil", "bîl"),
    ("por", "por"),
    ("uir", "huîh"),
    ("çic", "çic"),
    ("tac", "tac"),
    ("yak", "yak"),
    ("stop", "êttôh"),
    ("bip", "bip"),
];

/// Words in `-ado`, `-ada`, `-ido` and their plurals that keep their `d`.
pub const WORDEND_D_INTERVOWEL_RULES_EXCEPT: [(&'static str, &'static str); 32] = [
    ("fado", "fado"),
    ("cado", "cado"),
    ("nado", "nado"),
    ("priado", "priado"),
    ("fabada", "fabada"),
    ("fabadas", "fabadas"),
    ("fada", "fada"),
    ("ada", "ada"),
    ("lada", "lada"),
    ("rada", "rada"),
    ("adas", "adas"),
    ("radas", "radas"),
    ("nadas", "nadas"),
    ("aikido", "aikido"),
    ("bûççido", "bûççido"),
    ("çido", "çido"),
    ("cuido", "cuido"),
    ("cupido", "cupido"),
    ("descuido", "descuido"),
    ("despido", "despido"),
    ("eido", "eido"),
    ("embido", "embido"),
    ("fido", "fido"),
    ("hido", "hido"),
    ("ido", "ido"),
    ("infido", "infido"),
    ("laido", "laido"),
    ("libido", "libido"),
    ("nido", "nido"),
    ("nucleido", "nucleido"),
    ("çonido", "çonido"),
    ("çuido", "çuido"),
];

/// Whole words with a spelling of their own, looked up once the other
/// phases have run: the keys are spelled as those phases leave them.
pub const ENDING_RULES_EXCEPTION: [(&'static str, &'static str); 47] = [
    ("biêmmandao", "bienmandao"),
    ("biêmmeçabe", "bienmeçabe"),
    ("buêmmoço", "buenmoço"),
    ("çiêmmiléçima", "çienmiléçima"),
    ("çiêmmiléçimo", "çienmiléçimo"),
    ("çiêmmilímetro", "çienmilímetro"),
    ("çiêmmiyonéçima", "çienmiyonéçima"),
    ("çiêmmiyonéçimo", "çienmiyonéçimo"),
    ("çiêmmirmiyonéçima", "çienmirmiyonéçima"),
    ("çiêmmirmiyonéçimo", "çienmirmiyonéçimo"),
    ("marrotadôh", "mârrotadôh"),
    ("marrotâh", "mârrotâh"),
    ("mirrayâ", "mîrrayâ"),
    ("herôççiquiatría", "heroçiquiatría"),
    ("herôççiquiátrico", "heroçiquiátrico"),
    ("farmacôççiquiatría", "farmacoçiquiatría"),
    ("metempçícoçî", "metemçícoçî"),
    ("necróçico", "necróççico"),
    ("pampçiquîmmo", "pamçiquîmmo"),
    ("antîççerôttármico", "antiçerôttármico"),
    ("eclampçia", "eclampçia"),
    ("pôttoperatorio", "pôççoperatorio"),
    ("çáccrito", "çánccrito"),
    ("manbîh", "mambîh"),
    ("cômmelináçeo", "commelináçeo"),
    ("dîmmneçia", "dînneçia"),
    ("todo", "tó"),
    ("todô", "tôh"),
    ("toda", "toa"),
    ("todâ", "toâ"),
    ("as", "âh"),
    ("clown", "claun"),
    ("crack", "crâh"),
    ("down", "daun"),
    ("es", "êh"),
    ("ex", "êh"),
    ("ir", "îh"),
    ("miss", "mîh"),
    ("muy", "mu"),
    ("ôff", "off"),
    ("os", "ô"),
    ("para", "pa"),
    ("ring", "rin"),
    ("rock", "rôh"),
    ("spray", "êppray"),
    ("sprint", "êpprín"),
    ("wau", "guau"),
];

/// The replacement recorded for `key` from entry `i` of `table` on.
pub open spec fn lookup_from(
    table: Seq<(&'static str, &'static str)>,
    key: Seq<char>,
    i: int,
) -> Option<Seq<char>>
    decreases table.len() - i,
{
    if i < 0 || i >= table.len() {
        None
    } else if table[i].0@ == key {
        Some(table[i].1@)
    } else {
        lookup_from(table, key, i + 1)
    }
}

/// The replacement that `table` records for `key`, if any.
pub open spec fn lookup(table: Seq<(&'static str, &'static str)>, key: Seq<char>) -> Option<
    Seq<char>,
> {
    lookup_from(table, key, 0)
}

/// Looks `key` up in an exception table.
pub fn find_entry(table: &[(&'static str, &'static str)], key: &Vec<char>) -> (r: Option<
    &'static str,
>)
    ensures
        match r {
            Some(v) => lookup(table@, key@) == Some(v@),
            None => lookup(table@, key@).is_none(),
        },
{
    let mut i: usize = 0;
    while i < table.len()
        invariant
            i <= table.len(),
            lookup_from(table@, key@, i as int) == lookup(table@, key@),
        decreases table.len() - i,
    {
        if spells(key, table[i].0) {
            return Some(table[i].1);
        }
        i += 1;
    }
    None
}

/// The lowercase form of a letter of the Spanish alphabet or of the EPA
/// spelling; any other character is left as it is. The grammars compare
/// letters through this folding, so they match either case.
pub open spec fn fold(c: char) -> char {
    match c {
        'A' => 'a',
        'B' => 'b',
        'C' => 'c',
        'D' => 'd',
        'E' => 'e',
        'F' => 'f',
        'G' => 'g',
        'H' => 'h',
        'I' => 'i',
        'J' => 'j',
        'K' => 'k',
        'L' => 'l',
        'M' => 'm',
        'N' => 'n',
        'O' => 'o',
        'P' => 'p',
        'Q' => 'q',
        'R' => 'r',
        'S' => 's',
        'T' => 't',
        'U' => 'u',
        'V' => 'v',
        'W' => 'w',
        'X' => 'x',
        'Y' => 'y',
        'Z' => 'z',
        'Á' => 'á',
        'É' => 'é',
        'Í' => 'í',
        'Ó' => 'ó',
        'Ú' => 'ú',
        'Â' => 'â',
        'Ê' => 'ê',
        'Î' => 'î',
        'Ô' => 'ô',
        'Û' => 'û',
        'Ü' => 'ü',
        'Ç' => 'ç',
        'Ñ' => 'ñ',
        _ => c,
    }
}

/// The lowercase form of a letter of the Spanish alphabet or of the EPA
/// spelling; any other character is left as it is. The grammars compare
/// letters through this folding, so they match either case.
pub fn fold_char(c: char) -> (r: char)
    ensures
        r == fold(c),
{
    match c {
        'A' => 'a',
        'B' => 'b',
        'C' => 'c',
        'D' => 'd',
        'E' => 'e',
        'F' => 'f',
        'G' => 'g',
        'H' => 'h',
        'I' => 'i',
        'J' => 'j',
        'K' => 'k',
        'L' => 'l',
        'M' => 'm',
        'N' => 'n',
        'O' => 'o',
        'P' => 'p',
        'Q' => 'q',
        'R' => 'r',
        'S' => 's',
        'T' => 't',
        'U' => 'u',
        'V' => 'v',
        'W' => 'w',
        'X' => 'x',
        'Y' => 'y',
        'Z' => 'z',
        'Á' => 'á',
        'É' => 'é',
        'Í' => 'í',
        'Ó' => 'ó',
        'Ú' => 'ú',
        'Â' => 'â',
        'Ê' => 'ê',
        'Î' => 'î',
        'Ô' => 'ô',
        'Û' => 'û',
        'Ü' => 'ü',
        'Ç' => 'ç',
        'Ñ' => 'ñ',
        _ => c,
    }
}

/// A folded vowel without a mark.
pub open spec fn is_plain_vowel(c: char) -> bool {
    c == 'a' || c == 'e' || c == 'i' || c == 'o' || c == 'u'
}

/// A folded vowel without a mark.
pub fn is_plain_vowel_char(c: char) -> (r: bool)
    ensures
        r == is_plain_vowel(c),
{
    c == 'a' || c == 'e' || c == 'i' || c == 'o' || c == 'u'
}

/// A folded vowel with an acute accent.
pub open spec fn is_acute_vowel(c: char) -> bool {
    c == 'á' || c == 'é' || c == 'í' || c == 'ó' || c == 'ú'
}

/// A folded vowel with an acute accent.
pub fn is_acute_vowel_char(c: char) -> (r: bool)
    ensures
        r == is_acute_vowel(c),
{
    c == 'á' || c == 'é' || c == 'í' || c == 'ó' || c == 'ú'
}

/// A folded vowel with a circumflex.
pub open spec fn is_circumflex_vowel(c: char) -> bool {
    c == 'â' || c == 'ê' || c == 'î' || c == 'ô' || c == 'û'
}

/// A folded vowel with a circumflex.
pub fn is_circumflex_vowel_char(c: char) -> (r: bool)
    ensures
        r == is_circumflex_vowel(c),
{
    c == 'â' || c == 'ê' || c == 'î' || c == 'ô' || c == 'û'
}

/// A folded vowel as standard spelling writes it: plain or with an acute
/// accent.
pub open spec fn is_vowel(c: char) -> bool {
    is_plain_vowel(c) || is_acute_vowel(c)
}

/// A folded vowel as standard spelling writes it: plain or with an acute
/// accent.
pub fn is_vowel_char(c: char) -> (r: bool)
    ensures
        r == is_vowel(c),
{
    is_plain_vowel_char(c) || is_acute_vowel_char(c)
}

/// A folded front vowel, before which `g` is a fricative.
pub open spec fn is_front_vowel(c: char) -> bool {
    c == 'e' || c == 'i' || c == 'é' || c == 'í'
}

/// A folded front vowel, before which `g` is a fricative.
pub fn is_front_vowel_char(c: char) -> (r: bool)
    ensures
        r == is_front_vowel(c),
{
    c == 'e' || c == 'i' || c == 'é' || c == 'í'
}

/// A folded vowel before which `c` is a sibilant.
pub open spec fn softens_c(c: char) -> bool {
    c == 'e' || c == 'i' || c == 'é' || c == 'í' || c == 'ê' || c == 'î'
}

/// A folded vowel before which `c` is a sibilant.
pub fn softens_c_char(c: char) -> (r: bool)
    ensures
        r == softens_c(c),
{
    c == 'e' || c == 'i' || c == 'é' || c == 'í' || c == 'ê' || c == 'î'
}

/// A folded vowel before which `s` and `z` are written `ç`.
pub open spec fn softens_s(c: char) -> bool {
    is_plain_vowel(c) || is_acute_vowel(c) || is_circumflex_vowel(c)
}

/// A folded vowel before which `s` and `z` are written `ç`.
pub fn softens_s_char(c: char) -> (r: bool)
    ensures
        r == softens_s(c),
{
    is_plain_vowel_char(c) || is_acute_vowel_char(c) || is_circumflex_vowel_char(c)
}

/// A folded consonant before which a syllable-final `l` turns into `r`.
pub open spec fn turns_l(c: char) -> bool {
    c == 'b' || c == 'c' || c == 'ç' || c == 'd' || c == 'f' || c == 'g' || c == 'h' || c == 'k' || c == 'm' || c == 'p' || c == 'q' || c == 'r' || c == 's' || c == 't' || c == 'x' || c == 'z'
}

/// A folded consonant before which a syllable-final `l` turns into `r`.
pub fn turns_l_char(c: char) -> (r: bool)
    ensures
        r == turns_l(c),
{
    c == 'b' || c == 'c' || c == 'ç' || c == 'd' || c == 'f' || c == 'g' || c == 'h' || c == 'k' || c == 'm' || c == 'p' || c == 'q' || c == 'r' || c == 's' || c == 't' || c == 'x' || c == 'z'
}

/// A folded consonant that may close a word after a vowel, other than
/// `d` and `s`.
pub open spec fn is_final_consonant(c: char) -> bool {
    c == 'b' || c == 'c' || c == 'f' || c == 'g' || c == 'j' || c == 'k' || c == 'l' || c == 'p' || c == 'r' || c == 't' || c == 'x' || c == 'z'
}

/// A folded consonant that may close a word after a vowel, other than
/// `d` and `s`.
pub fn is_final_consonant_char(c: char) -> (r: bool)
    ensures
        r == is_final_consonant(c),
{
    c == 'b' || c == 'c' || c == 'f' || c == 'g' || c == 'j' || c == 'k' || c == 'l' || c == 'p' || c == 'r' || c == 't' || c == 'x' || c == 'z'
}

/// A folded consonant that geminates after `trans-` and `post-`, and
/// after a dropped `s`.
pub open spec fn is_geminable(c: char) -> bool {
    c == 'b' || c == 'c' || c == 'ç' || c == 'd' || c == 'f' || c == 'g' || c == 'h' || c == 'j' || c == 'k' || c == 'l' || c == 'm' || c == 'n' || c == 'p' || c == 'q' || c == 's' || c == 't' || c == 'v' || c == 'w' || c == 'x' || c == 'y' || c == 'z'
}

/// A folded consonant that geminates after `trans-` and `post-`, and
/// after a dropped `s`.
pub fn is_geminable_char(c: char) -> (r: bool)
    ensures
        r == is_geminable(c),
{
    c == 'b' || c == 'c' || c == 'ç' || c == 'd' || c == 'f' || c == 'g' || c == 'h' || c == 'j' || c == 'k' || c == 'l' || c == 'm' || c == 'n' || c == 'p' || c == 'q' || c == 's' || c == 't' || c == 'v' || c == 'w' || c == 'x' || c == 'y' || c == 'z'
}

/// A folded consonant at the head of a word before which the final `l` of
/// the word before turns into `r`.
pub open spec fn is_liaison_consonant(c: char) -> bool {
    c == 'b' || c == 'c' || c == 'ç' || c == 'd' || c == 'f' || c == 'g' || c == 'h' || c == 'j' || c == 'k' || c == 'l' || c == 'm' || c == 'n' || c == 'ñ' || c == 'p' || c == 'q' || c == 's' || c == 't' || c == 'v' || c == 'w' || c == 'x' || c == 'y' || c == 'z'
}

/// A folded consonant at the head of a word before which the final `l` of
/// the word before turns into `r`.
pub fn is_liaison_consonant_char(c: char) -> (r: bool)
    ensures
        r == is_liaison_consonant(c),
{
    c == 'b' || c == 'c' || c == 'ç' || c == 'd' || c == 'f' || c == 'g' || c == 'h' || c == 'j' || c == 'k' || c == 'l' || c == 'm' || c == 'n' || c == 'ñ' || c == 'p' || c == 'q' || c == 's' || c == 't' || c == 'v' || c == 'w' || c == 'x' || c == 'y' || c == 'z'
}

/// A folded consonant that is dropped before `l`, which is then written
/// twice with a hyphen.
pub open spec fn drops_before_l(c: char) -> bool {
    c == 'd' || c == 'j' || c == 'r' || c == 's' || c == 't' || c == 'x' || c == 'z'
}

/// A folded consonant that is dropped before `l`, which is then written
/// twice with a hyphen.
pub fn drops_before_l_char(c: char) -> (r: bool)
    ensures
        r == drops_before_l(c),
{
    c == 'd' || c == 'j' || c == 'r' || c == 's' || c == 't' || c == 'x' || c == 'z'
}

/// The folded consonants that may follow any head of a pair.
pub open spec fn is_pair_tail(c: char) -> bool {
    c == 'b' || c == 'c' || c == 'ç' || c == 'd' || c == 'f' || c == 'g' || c == 'h' || c == 'm' || c == 'n' || c == 'p' || c == 'q' || c == 't' || c == 'x' || c == 'y'
}

/// The folded consonants that may follow any head of a pair.
pub fn is_pair_tail_char(c: char) -> (r: bool)
    ensures
        r == is_pair_tail(c),
{
    c == 'b' || c == 'c' || c == 'ç' || c == 'd' || c == 'f' || c == 'g' || c == 'h' || c == 'm' || c == 'n' || c == 'p' || c == 'q' || c == 't' || c == 'x' || c == 'y'
}

/// The set of consonant pairs, given folded, that geminate after a vowel:
/// the first consonant is dropped and the second written twice.
pub open spec fn is_digraph(head: char, tail: char) -> bool {
    if head == 'b' || head == 'c' || head == 'f' || head == 'g' || head == 'p' {
        is_pair_tail(tail)
    } else if head == 'd' || head == 't' {
        is_pair_tail(tail) || tail == 'l'
    } else if head == 'j' || head == 'l' || head == 'x' || head == 'z' {
        is_pair_tail(tail) || tail == 'l' || tail == 'r' || tail == 's'
    } else if head == 's' {
        is_pair_tail(tail) || tail == 'k' || tail == 'l' || tail == 'ñ' || tail == 'r'
    } else if head == 'm' {
        tail == 'm' || tail == 'n'
    } else if head == 'n' {
        tail == 'm' || tail == 'n' || tail == 's'
    } else if head == 'r' {
        tail == 'n'
    } else {
        false
    }
}

/// The set of consonant pairs, given folded, that geminate after a vowel:
/// the first consonant is dropped and the second written twice.
pub fn is_digraph_pair(head: char, tail: char) -> (r: bool)
    ensures
        r == is_digraph(head, tail),
{
    if head == 'b' || head == 'c' || head == 'f' || head == 'g' || head == 'p' {
        is_pair_tail_char(tail)
    } else if head == 'd' || head == 't' {
        is_pair_tail_char(tail) || tail == 'l'
    } else if head == 'j' || head == 'l' || head == 'x' || head == 'z' {
        is_pair_tail_char(tail) || tail == 'l' || tail == 'r' || tail == 's'
    } else if head == 's' {
        is_pair_tail_char(tail) || tail == 'k' || tail == 'l' || tail == 'ñ' || tail == 'r'
    } else if head == 'm' {
        tail == 'm' || tail == 'n'
    } else if head == 'n' {
        tail == 'm' || tail == 'n' || tail == 's'
    } else if head == 'r' {
        tail == 'n'
    } else {
        false
    }
}

/// The four contexts in which the last vowel of a word is marked.
#[derive(Clone, Copy, PartialEq, Eq, Structural, Debug)]
pub enum EndingTable {
    /// Before a dropped `d`, in a word stressed earlier.
    DUnstress,
    /// Before a dropped `d`, in a word stressed on this vowel.
    DStress,
    /// Before a dropped `s`.
    S,
    /// Before any other dropped consonant.
    Cons,
}

/// A vowel, plain or with an acute accent, with a circumflex in its place.
pub open spec fn circumflex_ending(c: char) -> Option<char> {
    match c {
        'a' | 'á' => Some('â'),
        'A' | 'Á' => Some('Â'),
        'e' | 'é' => Some('ê'),
        'E' | 'É' => Some('Ê'),
        'i' | 'í' => Some('î'),
        'I' | 'Í' => Some('Î'),
        'o' | 'ó' => Some('ô'),
        'O' | 'Ó' => Some('Ô'),
        'u' | 'ú' => Some('û'),
        'U' | 'Ú' => Some('Û'),
        _ => None,
    }
}

/// A vowel, plain or with an acute accent, as it is written where the
/// stress falls on it before a dropped `d`: `a` and `e` with an acute
/// accent, the others with a circumflex.
pub open spec fn stressed_ending(c: char) -> Option<char> {
    match c {
        'a' | 'á' => Some('á'),
        'A' | 'Á' => Some('Á'),
        'e' | 'é' => Some('é'),
        'E' | 'É' => Some('É'),
        'i' | 'í' => Some('î'),
        'I' | 'Í' => Some('Î'),
        'o' | 'ó' => Some('ô'),
        'O' | 'Ó' => Some('Ô'),
        'u' | 'ú' => Some('û'),
        'U' | 'Ú' => Some('Û'),
        _ => None,
    }
}

/// The marked form that `table` gives for a vowel.
pub open spec fn ending_char(table: EndingTable, c: char) -> Option<char> {
    match table {
        EndingTable::DStress => stressed_ending(c),
        _ => circumflex_ending(c),
    }
}

/// The marked form that `table` gives for a one-character cluster; `None`
/// for anything that is not one of its vowels.
pub open spec fn ending_vowel(table: EndingTable, vowel: Seq<char>) -> Option<Seq<char>> {
    if vowel.len() == 1 && ending_char(table, vowel[0]).is_some() {
        Some(seq![ending_char(table, vowel[0]).unwrap()])
    } else {
        None
    }
}

/// Looks a vowel up in the tables that mark with a circumflex.
fn circumflex_ending_char(c: char) -> (r: Option<char>)
    ensures
        r == circumflex_ending(c),
{
    match c {
        'a' | 'á' => Some('â'),
        'A' | 'Á' => Some('Â'),
        'e' | 'é' => Some('ê'),
        'E' | 'É' => Some('Ê'),
        'i' | 'í' => Some('î'),
        'I' | 'Í' => Some('Î'),
        'o' | 'ó' => Some('ô'),
        'O' | 'Ó' => Some('Ô'),
        'u' | 'ú' => Some('û'),
        'U' | 'Ú' => Some('Û'),
        _ => None,
    }
}

/// Looks a vowel up in the table for a stressed vowel before `d`.
fn stressed_ending_char(c: char) -> (r: Option<char>)
    ensures
        r == stressed_ending(c),
{
    match c {
        'a' | 'á' => Some('á'),
        'A' | 'Á' => Some('Á'),
        'e' | 'é' => Some('é'),
        'E' | 'É' => Some('É'),
        'i' | 'í' => Some('î'),
        'I' | 'Í' => Some('Î'),
        'o' | 'ó' => Some('ô'),
        'O' | 'Ó' => Some('Ô'),
        'u' | 'ú' => Some('û'),
        'U' | 'Ú' => Some('Û'),
        _ => None,
    }
}

/// Looks a vowel up in one of the ending tables.
pub fn marked_vowel(table: EndingTable, vowel: &Vec<char>) -> (r: Option<Vec<char>>)
    ensures
        match r {
            Some(m) => ending_vowel(table, vowel@) == Some(m@),
            None => ending_vowel(table, vowel@).is_none(),
        },
{
    if vowel.len() != 1 {
        return None;
    }
    let found = match table {
        EndingTable::DStress => stressed_ending_char(vowel[0]),
        _ => circumflex_ending_char(vowel[0]),
    };
    match found {
        Some(c) => {
            let mut out: Vec<char> = Vec::new();
            out.push(c);
            assert(out@ =~= seq![c]);
            Some(out)
        },
        None => None,
    }
}

/// The replacement that `table` holds for `word`, in the case pattern of
/// `word`: the table is keyed by the lowercase form of the word.
pub open spec fn excepted(table: Seq<(&'static str, &'static str)>, word: Seq<char>) -> Option<
    Seq<char>,
> {
    match lookup(table, lowercase(word)) {
        Some(w) => Some(apply_case(w, word)),
        None => None,
    }
}

/// Looks `word` up in an exception table and writes what the table holds
/// for it in the case pattern of `word`.
pub fn exception_for(table: &[(&'static str, &'static str)], word: &Vec<char>) -> (r: Option<
    Vec<char>,
>)
    ensures
        match r {
            Some(w) => excepted(table@, word@) == Some(w@),
            None => excepted(table@, word@).is_none(),
        },
{
    let key = to_lower(word);
    match find_entry(table, &key) {
        Some(w) => {
            let replacement = chars_of(w);
            Some(keep_case(&replacement, word))
        },
        None => None,
    }
}

} // verus!
