use andaluh::defs::{
    fold_char, is_digraph_pair, marked_vowel, EndingTable, ENDING_RULES_EXCEPTION,
    WORDEND_CONST_RULES_EXCEPT, WORDEND_D_INTERVOWEL_RULES_EXCEPT, WORDEND_D_RULES_EXCEPT,
    WORDEND_S_RULES_EXCEPT,
};
use andaluh::endings::{
    rewrite_ending_cons, rewrite_ending_d, rewrite_ending_ps, rewrite_ending_s, rewrite_inter_d,
    stressed,
};
use andaluh::rules::{rewrite_span, rewrite_spans};
use andaluh::text::{chars_of, string_of};
use andaluh::{exception_rule, word_ending_rule, Rule, Span};

fn rewritten(rule: Rule, text: &str) -> String {
    string_of(&rewrite_span(&Span { rule, text: chars_of(text) }))
}

#[test]
fn stress_is_a_written_accent_in_either_case() {
    assert!(stressed(&chars_of("tríc")));
    assert!(stressed(&chars_of("CÁD")));
    assert!(!stressed(&chars_of("Madr")));
    assert!(!stressed(&chars_of("pingü")));
    assert!(!stressed(&chars_of("")));
}

#[test]
fn ending_tables() {
    let mark = |t: EndingTable, v: &str| marked_vowel(t, &chars_of(v)).map(|m| string_of(&m));
    for table in [EndingTable::DUnstress, EndingTable::S, EndingTable::Cons] {
        assert_eq!(mark(table, "a"), Some("â".to_string()));
        assert_eq!(mark(table, "É"), Some("Ê".to_string()));
        assert_eq!(mark(table, "í"), Some("î".to_string()));
        assert_eq!(mark(table, "O"), Some("Ô".to_string()));
        assert_eq!(mark(table, "ú"), Some("û".to_string()));
    }
    assert_eq!(mark(EndingTable::DStress, "a"), Some("á".to_string()));
    assert_eq!(mark(EndingTable::DStress, "Á"), Some("Á".to_string()));
    assert_eq!(mark(EndingTable::DStress, "E"), Some("É".to_string()));
    assert_eq!(mark(EndingTable::DStress, "i"), Some("î".to_string()));
    assert_eq!(mark(EndingTable::DStress, "Ó"), Some("Ô".to_string()));
    assert_eq!(mark(EndingTable::DStress, "u"), Some("û".to_string()));
    assert_eq!(mark(EndingTable::DStress, "â"), None);
    assert_eq!(mark(EndingTable::S, "b"), None);
    assert_eq!(mark(EndingTable::S, ""), None);
    assert_eq!(mark(EndingTable::S, "ae"), None);
}

#[test]
fn word_in_vowel_and_d() {
    let d = |w: &str| string_of(&rewrite_ending_d(&chars_of(w)));
    assert_eq!(d("Madrid"), "Madrîh");
    assert_eq!(d("MADRID"), "MADRÎH");
    assert_eq!(d("maldad"), "maldá");
    assert_eq!(d("pared"), "paré");
    assert_eq!(d("virtud"), "virtûh");
    assert_eq!(d("laúd"), "laûh");
    assert_eq!(d("ápud"), "ápû");
    assert_eq!(d("césped"), "céspê");
    assert_eq!(d("çed"), "çêh");
    assert_eq!(d("ÇED"), "ÇÊH");
}

#[test]
fn word_in_vowel_and_s() {
    let s = |w: &str| string_of(&rewrite_ending_s(&chars_of(w)));
    assert_eq!(s("tazas"), "tazâ");
    assert_eq!(s("TAZAS"), "TAZÂ");
    assert_eq!(s("anís"), "anîh");
    assert_eq!(s("ANÍS"), "ANÎH");
    assert_eq!(s("dos"), "dôh");
    assert_eq!(s("blues"), "blû");
    assert_eq!(s("Luis"), "Luîh");
}

#[test]
fn word_in_vowel_and_another_consonant() {
    let c = |w: &str| string_of(&rewrite_ending_cons(&chars_of(w)));
    assert_eq!(c("disfraz"), "disfrâh");
    assert_eq!(c("COMER"), "COMÊH");
    assert_eq!(c("Cádiz"), "Cádî");
    assert_eq!(c("cual"), "cuâ");
    assert_eq!(c("stop"), "êttô");
    assert_eq!(c("él"), "èl");
    assert_eq!(c("Por"), "Por");
}

#[test]
fn word_in_vowel_and_ps() {
    let ps = |w: &str| string_of(&rewrite_ending_ps(&chars_of(w)));
    assert_eq!(ps("tríceps"), "trícê");
    assert_eq!(ps("BÍCEPS"), "BÍCÊ");
    assert_eq!(ps("triceps"), "triceps");
    assert_eq!(ps("fórcéps"), "fórcé");
}

#[test]
fn word_with_d_between_vowels() {
    let d = |w: &str| string_of(&rewrite_inter_d(&chars_of(w)));
    assert_eq!(d("casada"), "casá");
    assert_eq!(d("CASADA"), "CASÁ");
    assert_eq!(d("casadas"), "casâh");
    assert_eq!(d("CasADas"), "CasÂH");
    assert_eq!(d("casAdas"), "casÂh");
    assert_eq!(d("cansado"), "cansao");
    assert_eq!(d("Colocados"), "Colocáô");
    assert_eq!(d("comidos"), "comíô");
    assert_eq!(d("leídos"), "leíô");
    assert_eq!(d("malnacidas"), "malnacidâ");
    assert_eq!(d("roido"), "roío");
    assert_eq!(d("oído"), "oío");
    assert_eq!(d("ROIDO"), "ROÍO");
    assert_eq!(d("comida"), "comida");
    assert_eq!(d("caída"), "caída");
    assert_eq!(d("caídas"), "caídas");
    assert_eq!(d("sábado"), "sábado");
    assert_eq!(d("fabada"), "fabada");
    assert_eq!(d("Cupido"), "Cupido");
    assert_eq!(d("DESCUIDO"), "DESCUIDO");
}

#[test]
fn a_word_shorter_than_its_rule_reads_stays_as_it_is() {
    for short in ["", "d", "s"] {
        assert_eq!(string_of(&rewrite_ending_d(&chars_of(short))), short);
        assert_eq!(string_of(&rewrite_ending_s(&chars_of(short))), short);
        assert_eq!(string_of(&rewrite_ending_cons(&chars_of(short))), short);
    }
    for short in ["", "s", "ps", "os", "do", "dos"] {
        assert_eq!(string_of(&rewrite_ending_ps(&chars_of(short))), short);
        assert_eq!(string_of(&rewrite_inter_d(&chars_of(short))), short);
    }
    assert_eq!(rewritten(Rule::DigraphLstrst, "ols"), "ols");
    assert_eq!(rewritten(Rule::DigraphTrans, "pos"), "pos");
    assert_eq!(rewritten(Rule::DigraphBdnr, "abs"), "abs");
    assert_eq!(rewritten(Rule::DigraphL, "at"), "at");
    assert_eq!(rewritten(Rule::GenDigraph, "a"), "a");
    assert_eq!(rewritten(Rule::EndingL, "l "), "l ");
    assert_eq!(rewritten(Rule::EndingD, "d"), "d");
}

#[test]
fn a_word_whose_vowel_is_no_table_key_stays_as_it_is() {
    // A vowel and a combining accent make one cluster, which no table holds.
    assert_eq!(string_of(&rewrite_ending_d(&chars_of("pare\u{301}d"))), "pare\u{301}d");
    assert_eq!(string_of(&rewrite_ending_s(&chars_of("pxs"))), "pxs");
    assert_eq!(word_ending_rule("pare\u{301}d").unwrap(), "pare\u{301}d");
}

#[test]
fn every_rule_on_a_span_of_its_own() {
    assert_eq!(rewritten(Rule::Any, "Hola"), "Hola");
    assert_eq!(rewritten(Rule::InitialH, "Ha"), "A");
    assert_eq!(rewritten(Rule::InnerH, "h"), "");
    assert_eq!(rewritten(Rule::Hue, "HUE"), "GÜE");
    assert_eq!(rewritten(Rule::Hua, "hua"), "gua");
    assert_eq!(rewritten(Rule::InitialX, "X"), "Ç");
    assert_eq!(rewritten(Rule::InnerVowelX, "Oxi"), "Ôççi");
    assert_eq!(rewritten(Rule::InnerVowelX, "EXA"), "ÊÇÇA");
    assert_eq!(rewritten(Rule::Ch, "cH"), "x");
    assert_eq!(rewritten(Rule::BueInitial, "Vue"), "Gue");
    assert_eq!(rewritten(Rule::Bue, "bUE"), "gUE");
    assert_eq!(rewritten(Rule::Gjv, "Ja"), "Ha");
    assert_eq!(rewritten(Rule::Gue, "GUI"), "GI");
    assert_eq!(rewritten(Rule::GueDiaeresis, "GÜE"), "GUE");
    assert_eq!(rewritten(Rule::Nv, "nV"), "mB");
    assert_eq!(rewritten(Rule::V, "V"), "B");
    assert_eq!(rewritten(Rule::Ll, "Ll"), "Y");
    assert_eq!(rewritten(Rule::L, "L"), "R");
    assert_eq!(rewritten(Rule::Psic, "Psic"), "sic");
    assert_eq!(rewritten(Rule::Pseud, "PSEUD"), "SEUD");
    assert_eq!(rewritten(Rule::Zsv, "Sí"), "Çí");
    assert_eq!(rewritten(Rule::Cv, "ce"), "çe");
    assert_eq!(rewritten(Rule::EndingD, "usted"), "usté");
    assert_eq!(rewritten(Rule::EndingS, "gris"), "grîh");
    assert_eq!(rewritten(Rule::EndingCons, "yak"), "yak");
    assert_eq!(rewritten(Rule::EndingPs, "fórceps"), "fórcê");
    assert_eq!(rewritten(Rule::InterD, "nido"), "nido");
    assert_eq!(rewritten(Rule::DigraphLstrst, "ALST"), "ARTT");
    assert_eq!(rewritten(Rule::DigraphLstrst, "erst"), "ertt");
    assert_eq!(rewritten(Rule::DigraphTrans, "TRANSL"), "TRÂL-L");
    assert_eq!(rewritten(Rule::DigraphTrans, "postm"), "pômm");
    assert_eq!(rewritten(Rule::DigraphBdnr, "onst"), "ôtt");
    assert_eq!(rewritten(Rule::DigraphBdnr, "ersp"), "erpp");
    assert_eq!(rewritten(Rule::DigraphL, "isl"), "îl-l");
    assert_eq!(rewritten(Rule::GenDigraph, "éxt"), "étt");
    assert_eq!(rewritten(Rule::Word, "Muy"), "Mu");
    assert_eq!(rewritten(Rule::Word, "tomate"), "tomate");
    assert_eq!(rewritten(Rule::EndingL, "DEL P"), "DER P");
}

#[test]
fn rewritten_spans_are_joined_in_order() {
    let spans = vec![
        Span { rule: Rule::InitialH, text: chars_of("ho") },
        Span { rule: Rule::Any, text: chars_of("la ") },
        Span { rule: Rule::Ch, text: chars_of("CH") },
    ];
    assert_eq!(string_of(&rewrite_spans(&spans)), "ola X");
    assert_eq!(string_of(&rewrite_spans(&Vec::new())), "");
}

#[test]
fn letters_fold_to_lower_case() {
    assert_eq!(fold_char('A'), 'a');
    assert_eq!(fold_char('Z'), 'z');
    assert_eq!(fold_char('Ñ'), 'ñ');
    assert_eq!(fold_char('Ç'), 'ç');
    assert_eq!(fold_char('Ü'), 'ü');
    assert_eq!(fold_char('Í'), 'í');
    assert_eq!(fold_char('Û'), 'û');
    assert_eq!(fold_char('q'), 'q');
    assert_eq!(fold_char('1'), '1');
    assert_eq!(fold_char('À'), 'À');
}

#[test]
fn digraph_set() {
    for (head, tail) in [
        ('b', 'b'), ('c', 't'), ('n', 's'), ('s', 'f'), ('n', 'm'), ('m', 'n'), ('x', 't'),
        ('s', 'k'), ('d', 'ç'), ('r', 'n'), ('l', 'n'), ('s', 'ñ'), ('z', 'r'), ('t', 'l'),
    ] {
        assert!(is_digraph_pair(head, tail));
    }
    for (head, tail) in [
        ('r', 't'), ('r', 'r'), ('n', 't'), ('n', 'd'), ('m', 'b'), ('g', 'l'), ('p', 'l'),
        ('b', 'r'), ('s', 's'), ('a', 'b'), ('b', 'a'), ('k', 't'), ('ñ', 'm'),
    ] {
        assert!(!is_digraph_pair(head, tail));
    }
}

#[test]
fn lexicon_words_get_their_spelling() {
    for (word, replacement) in ENDING_RULES_EXCEPTION {
        let expected: String = replacement.chars().take(word.chars().count()).collect();
        assert_eq!(exception_rule(word).unwrap(), expected);
    }
}

#[test]
fn excepted_endings_get_their_spelling() {
    let tables: [&[(&str, &str)]; 4] = [
        &WORDEND_D_RULES_EXCEPT,
        &WORDEND_S_RULES_EXCEPT,
        &WORDEND_CONST_RULES_EXCEPT,
        &WORDEND_D_INTERVOWEL_RULES_EXCEPT,
    ];
    for table in tables {
        for (word, replacement) in table {
            let letters = word.chars().count();
            let expected: String = replacement.chars().take(letters).collect();
            if letters >= 3 {
                assert_eq!(word_ending_rule(word).unwrap(), expected);
            }
        }
    }
}

#[test]
fn words_of_two_letters_have_no_ending() {
    for word in ["os", "al", "el", "él", "es", "as", "ir", "ex"] {
        assert_eq!(word_ending_rule(word).unwrap(), word);
    }
    assert_eq!(exception_rule("os es as ir ex").unwrap(), "ô êh âh îh êh");
    // The rule for the ending itself knows the word.
    assert_eq!(string_of(&rewrite_ending_s(&chars_of("os"))), "ô");
    assert_eq!(string_of(&rewrite_ending_cons(&chars_of("él"))), "èl");
}
