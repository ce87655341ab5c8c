use andaluh::defs::{
    exception_for, find_entry, GJ_RULES_EXCEPT, H_RULES_EXCEPT, LL_RULES_EXCEPT, V_RULES_EXCEPT,
};
use andaluh::guard::{longest_mark, placeholder_for};
use andaluh::text::{chars_of, string_of};
use andaluh::{
    apply_phase, gj_rule, h_rule, ll_rule, replace_exceptions, replace_exceptions_back, v_rule,
    Phase,
};

fn pairs(list: &[(&str, &str)]) -> Vec<(Vec<char>, Vec<char>)> {
    list.iter().map(|p| (chars_of(p.0), chars_of(p.1))).collect()
}

#[test]
fn placeholders_carry_the_index_of_the_word() {
    assert_eq!(string_of(&placeholder_for(0)), "AND_0");
    assert_eq!(string_of(&placeholder_for(9)), "AND_9");
    assert_eq!(string_of(&placeholder_for(10)), "AND_10");
    assert_eq!(string_of(&placeholder_for(305)), "AND_305");
}

#[test]
fn guard_swaps_excepted_words_for_placeholders() {
    let (marks, protected) = replace_exceptions(&chars_of("dijo Oh y jet"), &H_RULES_EXCEPT);
    assert_eq!(string_of(&protected), "dijo AND_1 y jet");
    assert_eq!(marks, pairs(&[("AND_1", "Ôh")]));

    let (marks, protected) = replace_exceptions(&chars_of("un JET y un gin"), &GJ_RULES_EXCEPT);
    assert_eq!(string_of(&protected), "un AND_1 y un AND_4");
    assert_eq!(marks, pairs(&[("AND_1", "YÊH"), ("AND_4", "yin")]));
}

#[test]
fn guard_leaves_other_texts_alone() {
    let (marks, protected) = replace_exceptions(&chars_of("hotel  zanahoria"), &H_RULES_EXCEPT);
    assert_eq!(string_of(&protected), "hotel  zanahoria");
    assert!(marks.is_empty());
    let (marks, protected) = replace_exceptions(&chars_of(""), &H_RULES_EXCEPT);
    assert_eq!(string_of(&protected), "");
    assert!(marks.is_empty());
}

#[test]
fn guard_replaces_the_first_occurrence_of_the_word() {
    // The second `oh` stays in the text under its own spelling until its
    // turn comes; each placeholder replaces one occurrence.
    let (marks, protected) = replace_exceptions(&chars_of("oh oh"), &H_RULES_EXCEPT);
    assert_eq!(string_of(&protected), "AND_0 AND_1");
    assert_eq!(marks, pairs(&[("AND_0", "ôh"), ("AND_1", "ôh")]));
    // The first occurrence may lie inside another word.
    let (marks, protected) = replace_exceptions(&chars_of("hotel h"), &H_RULES_EXCEPT);
    assert_eq!(string_of(&protected), "AND_1otel h");
    assert_eq!(marks, pairs(&[("AND_1", "h")]));
}

#[test]
fn restore_puts_the_replacements_back() {
    let marks = pairs(&[("AND_0", "ôh"), ("AND_3", "yihá")]);
    assert_eq!(
        string_of(&replace_exceptions_back(&chars_of("AND_0, dijo el AND_3 AND_0"), &marks)),
        "ôh, dijo el yihá ôh"
    );
    assert_eq!(string_of(&replace_exceptions_back(&chars_of("AND_1"), &marks)), "AND_1");
    assert_eq!(string_of(&replace_exceptions_back(&chars_of("abc"), &Vec::new())), "abc");
}

#[test]
fn restore_gives_each_placeholder_its_own_replacement() {
    // Where one placeholder begins another, the longer one that stands in
    // the text is taken.
    let marks = pairs(&[("AND_1", "x"), ("AND_10", "y")]);
    assert_eq!(string_of(&replace_exceptions_back(&chars_of("AND_1 AND_10"), &marks)), "x y");
    assert_eq!(string_of(&replace_exceptions_back(&chars_of("AND_10AND_1"), &marks)), "yx");
    assert_eq!(string_of(&replace_exceptions_back(&chars_of("AND_100 AND_11"), &marks)), "y0 x1");
    let reversed = pairs(&[("AND_10", "y"), ("AND_1", "x")]);
    assert_eq!(string_of(&replace_exceptions_back(&chars_of("AND_1 AND_10"), &reversed)), "x y");
}

#[test]
fn restore_is_one_pass() {
    // A replacement is not read again, even where it spells a placeholder.
    let marks = pairs(&[("AND_0", "AND_1"), ("AND_1", "z")]);
    assert_eq!(string_of(&replace_exceptions_back(&chars_of("AND_0 AND_1"), &marks)), "AND_1 z");
    // Of two pairs with one placeholder the first is taken; an empty
    // placeholder stands nowhere.
    let twins = pairs(&[("", "q"), ("AND_2", "a"), ("AND_2", "b")]);
    assert_eq!(string_of(&replace_exceptions_back(&chars_of("AND_2 c"), &twins)), "a c");
    assert_eq!(string_of(&replace_exceptions_back(&chars_of(""), &twins)), "");
}

#[test]
fn the_longest_placeholder_at_a_position() {
    let marks = pairs(&[("AND_1", "x"), ("AND_10", "y"), ("AND_101", "z")]);
    let text = chars_of("AND_10 AND_1x");
    assert_eq!(longest_mark(&text, &marks, 0), Some(1));
    assert_eq!(longest_mark(&text, &marks, 7), Some(0));
    assert_eq!(longest_mark(&text, &marks, 1), None);
    assert_eq!(longest_mark(&text, &marks, 13), None);
    assert_eq!(longest_mark(&text, &marks, 99), None);
}

#[test]
fn eleven_words_and_more_are_restored() {
    let text = "a oh c d e f g h i j oh l";
    assert_eq!(h_rule(text).unwrap(), "a ôh c d e f g h i j ôh l");
    let (marks, protected) = replace_exceptions(&chars_of(text), &H_RULES_EXCEPT);
    assert_eq!(string_of(&protected), "a AND_1 c d e f g AND_7 i j AND_10 l");
    assert_eq!(
        string_of(&replace_exceptions_back(&protected, &marks)),
        "a ôh c d e f g h i j ôh l"
    );
}

#[test]
fn tables_are_keyed_by_lowercase_words() {
    assert_eq!(find_entry(&H_RULES_EXCEPT, &chars_of("haz")), Some("âh"));
    assert_eq!(find_entry(&H_RULES_EXCEPT, &chars_of("Haz")), None);
    assert_eq!(find_entry(&H_RULES_EXCEPT, &chars_of("")), None);
    assert_eq!(find_entry(&V_RULES_EXCEPT, &chars_of("ves")), Some("bêh"));
    assert_eq!(find_entry(&LL_RULES_EXCEPT, &chars_of("grill")), Some("grîh"));
    assert_eq!(
        exception_for(&GJ_RULES_EXCEPT, &chars_of("JAZZ")).map(|w| string_of(&w)),
        Some("YÂH".to_string())
    );
    assert_eq!(exception_for(&GJ_RULES_EXCEPT, &chars_of("jazzy")), None);
}

#[test]
fn an_excepted_word_alone_gets_its_replacement() {
    for (word, replacement) in H_RULES_EXCEPT {
        assert_eq!(h_rule(word).unwrap(), replacement);
    }
    for (word, replacement) in GJ_RULES_EXCEPT {
        assert_eq!(gj_rule(word).unwrap(), replacement);
    }
    for (word, replacement) in V_RULES_EXCEPT {
        assert_eq!(v_rule(word).unwrap(), replacement);
    }
    for (word, replacement) in LL_RULES_EXCEPT {
        assert_eq!(ll_rule(word).unwrap(), replacement);
    }
    assert_eq!(h_rule("HOZ").unwrap(), "ÔH");
    assert_eq!(gj_rule("Gin").unwrap(), "Yin");
}

#[test]
fn the_grammar_of_a_guarded_phase_does_not_see_the_word() {
    // Without its table the aspirate phase would drop both letters `h`.
    assert_eq!(h_rule("yihad").unwrap(), "yihá");
    assert_eq!(gj_rule("jet").unwrap(), "yêh");
    assert_eq!(v_rule("ves").unwrap(), "bêh");
    assert_eq!(ll_rule("grill").unwrap(), "grîh");
    assert_eq!(
        string_of(&apply_phase(Phase::Aspirate, &chars_of("oh, hola")).unwrap()),
        "o, ola"
    );
}

#[test]
fn a_placeholder_may_land_in_an_earlier_word() {
    // The first occurrence of `h` lies in `hotel`: that one is guarded, and
    // the word `h` itself meets the grammar.
    assert_eq!(h_rule("hotel h").unwrap(), "hotel ");
    assert_eq!(h_rule("h hotel").unwrap(), "h otel");
}

#[test]
fn guarding_and_restoring_replace_each_excepted_word_and_nothing_else() {
    let cases = [
        ("oh", "ôh"),
        ("  oh  ", "  ôh  "),
        ("Oh, no", "Oh, no"),
        ("dijo OH y Haz y hoz", "dijo ÔH y Âh y ôh"),
        ("oh oh h oh", "ôh ôh h ôh"),
        ("oh h", "ôh h"),
        (
            "uno dos tres cuatro cinco seis siete ocho nueve oh hez yihad",
            "uno dos tres cuatro cinco seis siete ocho nueve ôh êh yihá",
        ),
        ("a oh b oh c oh d oh e oh f oh", "a ôh b ôh c ôh d ôh e ôh f ôh"),
        ("", ""),
    ];
    for (text, expected) in cases {
        let (marks, protected) = replace_exceptions(&chars_of(text), &H_RULES_EXCEPT);
        assert_eq!(string_of(&replace_exceptions_back(&protected, &marks)), expected);
    }
}
