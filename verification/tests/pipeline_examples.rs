use andaluh::{
    digraph_rule, epa, h_rule, ll_rule, vaf_rule, word_ending_rule, x_rule,
};

#[test]
fn aspirate_example() {
    assert_eq!(h_rule("hotel HOTEL zanahoria").unwrap(), "otel OTEL zanaoria");
}

#[test]
fn fricative_example() {
    assert_eq!(
        x_rule("Xilófono axila éxito xenofobia").unwrap(),
        "Çilófono âççila éççito çenofobia"
    );
}

#[test]
fn palatal_example() {
    assert_eq!(ll_rule("lleva valla").unwrap(), "yeva vaya");
}

#[test]
fn word_ending_example() {
    assert_eq!(
        word_ending_rule("Madrid tazas disfraz tomate").unwrap(),
        "Madrîh tazâ disfrâh tomate"
    );
}

#[test]
fn digraph_example() {
    assert_eq!(digraph_rule("atlántico abstracto").unwrap(), "âl-lántico âttrâtto");
    // The digraph phase alone doubles the `t`; the sibilants are the work of
    // an earlier phase.
    assert_eq!(digraph_rule("solsticio").unwrap(), "sortticio");
    assert_eq!(digraph_rule("çorstiçio").unwrap(), "çorttiçio");
    assert_eq!(
        epa("atlántico abstracto solsticio").unwrap(),
        "âl-lántico âttrâtto çorttiçio"
    );
}

#[test]
fn pipeline_example() {
    assert_eq!(
        epa("Todo Xenomorfo dice: que el Éxito asfixian").unwrap(),
        "Tó Çenomorfo diçe: que el Éççito âffîççian"
    );
}

#[test]
fn pipeline_on_a_pangram() {
    assert_eq!(
        epa(
            "El veloz murciélago hindú comía feliz cardillo y kiwi. La cigüeña tocaba el \
             saxofón detrás del palenque de paja."
        )
        .unwrap(),
        "Er belôh murçiélago indú comía felîh cardiyo y kiwi. La çigueña tocaba er çâççofón \
         detrâh der palenque de paha."
    );
}

#[test]
fn pipeline_on_a_sentence() {
    assert_eq!(
        epa("El hombre exhausto llegó al pueblo, y dijo: ¡buenos días!").unwrap(),
        "El ombre êççaûtto yegó ar pueblo, y diho: ¡guenô díâ!"
    );
}

#[test]
fn lexicon_keys_are_spelled_as_the_earlier_phases_leave_them() {
    // The replacement is cut to the length of the word it replaces.
    assert_eq!(epa("necrópsico").unwrap(), "necróççic");
    assert_eq!(epa("todos todas").unwrap(), "tôh toâ");
    assert_eq!(epa("es muy para").unwrap(), "êh mu pa");
}

#[test]
fn empty_text_stays_empty() {
    assert_eq!(epa("").unwrap(), "");
    assert_eq!(h_rule("").unwrap(), "");
    assert_eq!(word_ending_rule("").unwrap(), "");
    assert_eq!(vaf_rule("").unwrap(), "");
}

#[test]
fn whitespace_is_kept() {
    assert_eq!(epa("  \n\t ").unwrap(), "  \n\t ");
    assert_eq!(epa("el  perro\nel perro").unwrap(), "el  perro\ner perro");
}

#[test]
fn pipeline_is_a_function_of_its_input() {
    let text = "VALLA valla, si vas toda de ENVIDIA";
    let first = epa(text).unwrap();
    let second = epa(text).unwrap();
    assert_eq!(first, second);
    assert_eq!(first, "BAYA baya, çi bâ toa de EMBIDIA");
}

#[test]
fn pipeline_twice_may_differ_from_once() {
    let once = epa("hhotel").unwrap();
    assert_eq!(once, "hotêh");
    let twice = epa(&once).unwrap();
    assert_eq!(twice, "otê");
    assert_ne!(once, twice);
}

#[test]
fn a_long_text_is_rewritten_sentence_by_sentence() {
    let sentence = "El veloz murciélago hindú comía feliz cardillo y kiwi.";
    let expected = "Er belôh murçiélago indú comía felîh cardiyo y kiwi.";
    let text = vec![sentence; 300].join(" ");
    assert_eq!(epa(&text).unwrap(), vec![expected; 300].join(" "));
}
