use andaluh::{
    ch_rule, digraph_rule, exception_rule, gj_rule, h_rule, l_rule, ll_rule, psico_rule, v_rule,
    vaf_rule, word_ending_rule, word_interaction_rule, x_rule,
};

#[test]
fn aspirate_keeps_excepted_words() {
    assert_eq!(h_rule("oh OH Oh").unwrap(), "ôh ÔH Ôh");
    assert_eq!(h_rule("h").unwrap(), "h");
    assert_eq!(h_rule("yihad").unwrap(), "yihá");
    assert_eq!(h_rule("haz hez hoz").unwrap(), "âh êh ôh");
}

#[test]
fn aspirate_drops_h_and_passes_its_case_on() {
    assert_eq!(h_rule("bah").unwrap(), "ba");
    assert_eq!(h_rule("hh").unwrap(), "h");
    assert_eq!(h_rule("ahí").unwrap(), "aí");
    assert_eq!(h_rule("h!").unwrap(), "!");
    assert_eq!(h_rule("ha").unwrap(), "a");
}

#[test]
fn aspirate_leaves_ch_and_writes_hue_as_gue() {
    assert_eq!(h_rule("chueco").unwrap(), "chueco");
    assert_eq!(h_rule("deshuesar").unwrap(), "desgüesar");
}

#[test]
fn fricative_at_word_head() {
    assert_eq!(x_rule("xa").unwrap(), "ça");
    assert_eq!(x_rule("x").unwrap(), "ç");
}

#[test]
fn fricative_between_vowels() {
    assert_eq!(x_rule("axixa").unwrap(), "âççixa");
    assert_eq!(x_rule("exyz").unwrap(), "êççyz");
    assert_eq!(x_rule("taxi").unwrap(), "tâççi");
    assert_eq!(x_rule("Áxa").unwrap(), "Áçça");
}

#[test]
fn velar_softens_bue() {
    assert_eq!(gj_rule("bueno vuelo").unwrap(), "gueno guelo");
    assert_eq!(gj_rule("abuelo sabueso").unwrap(), "aguelo sagueso");
    assert_eq!(gj_rule("ambuesta").unwrap(), "ambuesta");
}

#[test]
fn velar_aspirates_g_and_j() {
    assert_eq!(gj_rule("gente jirafa").unwrap(), "hente hirafa");
    assert_eq!(gj_rule("gato").unwrap(), "gato");
    assert_eq!(gj_rule("reloj").unwrap(), "reloj");
}

#[test]
fn velar_drops_silent_u() {
    assert_eq!(gj_rule("guerra guitarra").unwrap(), "gerra gitarra");
    assert_eq!(gj_rule("pingüino").unwrap(), "pinguino");
    assert_eq!(gj_rule("GÜÍ").unwrap(), "GUÍ");
}

#[test]
fn velar_keeps_loanwords() {
    assert_eq!(gj_rule("jet Jazz gin").unwrap(), "yêh Yâh yin");
}

#[test]
fn labial_cases() {
    assert_eq!(v_rule("nv").unwrap(), "mb");
    assert_eq!(v_rule("NV Nv nV").unwrap(), "MB Mb mB");
    assert_eq!(v_rule("vis").unwrap(), "bî");
    assert_eq!(v_rule("v").unwrap(), "b");
}

#[test]
fn palatal_cases() {
    assert_eq!(ll_rule("LL Ll lL").unwrap(), "Y Y y");
    assert_eq!(ll_rule("grill").unwrap(), "grîh");
    assert_eq!(ll_rule("l").unwrap(), "l");
}

#[test]
fn liquid_cases() {
    assert_eq!(l_rule("alto").unwrap(), "arto");
    assert_eq!(l_rule("ala").unwrap(), "ala");
    assert_eq!(l_rule("el").unwrap(), "el");
    assert_eq!(l_rule("alba alça").unwrap(), "arba arça");
    assert_eq!(l_rule("AL").unwrap(), "AL");
}

#[test]
fn learned_prefix_cases() {
    assert_eq!(psico_rule("psicosis").unwrap(), "sicosis");
    assert_eq!(psico_rule("parapsicologo").unwrap(), "parasicologo");
    assert_eq!(psico_rule("PSEUDO").unwrap(), "SEUDO");
    assert_eq!(psico_rule("psi").unwrap(), "psi");
    assert_eq!(psico_rule("pseu").unwrap(), "pseu");
    assert_eq!(psico_rule("Psicología").unwrap(), "sicología");
}

#[test]
fn sibilant_cases() {
    assert_eq!(vaf_rule("casa").unwrap(), "caça");
    assert_eq!(vaf_rule("cielo").unwrap(), "çielo");
    assert_eq!(vaf_rule("zorro").unwrap(), "çorro");
    assert_eq!(vaf_rule("sêco").unwrap(), "çêco");
    assert_eq!(vaf_rule("cô").unwrap(), "cô");
    assert_eq!(vaf_rule("S").unwrap(), "S");
}

#[test]
fn ending_needs_a_letter_before_vowel_and_consonant() {
    assert_eq!(word_ending_rule("es").unwrap(), "es");
    assert_eq!(word_ending_rule("ed").unwrap(), "ed");
    assert_eq!(word_ending_rule("ceps").unwrap(), "ceps");
}

#[test]
fn ending_in_d() {
    assert_eq!(word_ending_rule("ciudad").unwrap(), "ciudá");
    assert_eq!(word_ending_rule("pared").unwrap(), "paré");
    assert_eq!(word_ending_rule("usted").unwrap(), "usté");
    assert_eq!(word_ending_rule("césped").unwrap(), "céspê");
    assert_eq!(word_ending_rule("çed").unwrap(), "çêh");
}

#[test]
fn ending_in_s() {
    assert_eq!(word_ending_rule("anís").unwrap(), "anîh");
    assert_eq!(word_ending_rule("adiós").unwrap(), "adiôh");
    assert_eq!(word_ending_rule("compás").unwrap(), "compâh");
    assert_eq!(word_ending_rule("bus").unwrap(), "bûh");
}

#[test]
fn ending_in_other_consonant() {
    assert_eq!(word_ending_rule("reloj").unwrap(), "relôh");
    assert_eq!(word_ending_rule("ágil").unwrap(), "ágî");
    assert_eq!(word_ending_rule("por").unwrap(), "por");
}

#[test]
fn ending_in_ps() {
    assert_eq!(word_ending_rule("fórceps").unwrap(), "fórcê");
}

#[test]
fn ending_with_d_between_vowels() {
    assert_eq!(word_ending_rule("nada").unwrap(), "ná");
    assert_eq!(word_ending_rule("nadas").unwrap(), "nadas");
    assert_eq!(word_ending_rule("cansado").unwrap(), "cansao");
    assert_eq!(word_ending_rule("sábados").unwrap(), "sábados");
    assert_eq!(word_ending_rule("caídas").unwrap(), "caídas");
    assert_eq!(word_ending_rule("comidos").unwrap(), "comíô");
    assert_eq!(word_ending_rule("comído").unwrap(), "comío");
    assert_eq!(word_ending_rule("leídos").unwrap(), "leíô");
    assert_eq!(word_ending_rule("ado").unwrap(), "ao");
    assert_eq!(word_ending_rule("COLOCADOS").unwrap(), "COLOCÁÔ");
    assert_eq!(word_ending_rule("LADAS").unwrap(), "LÂH");
}

#[test]
fn digraph_patterns() {
    assert_eq!(digraph_rule("acto").unwrap(), "âtto");
    assert_eq!(digraph_rule("istmo").unwrap(), "îttmo");
    assert_eq!(digraph_rule("perla").unwrap(), "pêl-la");
    assert_eq!(digraph_rule("pasta").unwrap(), "pâtta");
    assert_eq!(digraph_rule("carne").unwrap(), "cânne");
    assert_eq!(digraph_rule("Israel").unwrap(), "Îrrael");
    assert_eq!(digraph_rule("ad").unwrap(), "ad");
}

#[test]
fn digraph_set_holds_ns() {
    assert_eq!(digraph_rule("fans").unwrap(), "fâss");
    assert_eq!(digraph_rule("transatlántico").unwrap(), "trâssâl-lántico");
}

#[test]
fn lexicon_cases() {
    assert_eq!(exception_rule("para PARA Para").unwrap(), "pa PA Pa");
    assert_eq!(exception_rule("spray").unwrap(), "êppra");
    assert_eq!(exception_rule("todo todô").unwrap(), "tó tôh");
    assert_eq!(exception_rule("x1 y2").unwrap(), "x1 y2");
    assert_eq!(exception_rule("muy-muy").unwrap(), "mu-mu");
}

#[test]
fn liaison_cases() {
    assert_eq!(word_interaction_rule("el perro").unwrap(), "er perro");
    assert_eq!(word_interaction_rule("el  perro").unwrap(), "el  perro");
    assert_eq!(word_interaction_rule("el árbol").unwrap(), "el árbol");
    assert_eq!(word_interaction_rule("al del tal").unwrap(), "ar del tal");
    assert_eq!(word_interaction_rule("tal rey").unwrap(), "tal rey");
    assert_eq!(word_interaction_rule("el").unwrap(), "el");
    assert_eq!(word_interaction_rule("papel").unwrap(), "papel");
    assert_eq!(word_interaction_rule("EL Niño").unwrap(), "ER Niño");
    assert_eq!(word_interaction_rule("el\tñu").unwrap(), "er\tñu");
}

#[test]
fn affricate_cases() {
    assert_eq!(ch_rule("ch CH Ch cH").unwrap(), "x X X x");
    assert_eq!(ch_rule("c h").unwrap(), "c h");
}

#[test]
fn a_word_that_the_lexicon_lacks_stays_as_it_is() {
    // A titlecase letter is neither upper nor lower case.
    assert_eq!(exception_rule("\u{1C5}ungla").unwrap(), "\u{1C5}ungla");
    assert_eq!(exception_rule("TuRuR\u{fa} \u{1C8}a x").unwrap(), "TuRuR\u{fa} \u{1C8}a x");
    assert_eq!(exception_rule("e\u{301}l MUY").unwrap(), "e\u{301}l MU");
}
