use andaluh::text::{
    chars_of, copy_range, decimal_of, find_first, matches_at, measure_word, push_all, push_str,
    replace_first_in, same_text, spells, split_words, string_of,
};

fn first_replaced(text: &str, pat: &str, with: &str) -> String {
    string_of(&replace_first_in(&chars_of(text), &chars_of(pat), &chars_of(with)))
}

#[test]
fn texts_and_strings_convert_both_ways() {
    assert_eq!(chars_of("añ"), vec!['a', 'ñ']);
    assert_eq!(string_of(&vec!['ç', 'a']), "ça");
    assert_eq!(string_of(&chars_of("")), "");
}

#[test]
fn appending_and_copying() {
    let mut out = chars_of("ab");
    push_all(&mut out, &chars_of("cd"));
    push_str(&mut out, "éf");
    assert_eq!(string_of(&out), "abcdéf");
    assert_eq!(string_of(&copy_range(&out, 1, 4)), "bcd");
    assert_eq!(string_of(&copy_range(&out, 3, 3)), "");
    assert_eq!(string_of(&copy_range(&out, 4, 100)), "éf");
    assert_eq!(string_of(&copy_range(&out, 4, 2)), "");
    assert_eq!(string_of(&copy_range(&out, 7, 9)), "");
}

#[test]
fn comparing() {
    assert!(same_text(&chars_of("ola"), &chars_of("ola")));
    assert!(!same_text(&chars_of("ola"), &chars_of("olá")));
    assert!(!same_text(&chars_of("ola"), &chars_of("ol")));
    assert!(spells(&chars_of("ídos"), "ídos"));
    assert!(!spells(&chars_of("idos"), "ídos"));
}

#[test]
fn searching() {
    let text = chars_of("hotel h");
    assert!(matches_at(&text, &chars_of("tel"), 2));
    assert!(!matches_at(&text, &chars_of("tel"), 3));
    assert!(!matches_at(&text, &chars_of("h"), 7));
    assert!(matches_at(&text, &chars_of(""), 7));
    assert!(!matches_at(&text, &chars_of(""), 8));
    assert_eq!(find_first(&text, &chars_of("h")), Some(0));
    assert_eq!(find_first(&text, &chars_of(" h")), Some(5));
    assert_eq!(find_first(&text, &chars_of("x")), None);
    assert_eq!(find_first(&text, &chars_of("hotel h!")), None);
    assert_eq!(find_first(&text, &chars_of("")), Some(0));
}

#[test]
fn replacing_the_first_occurrence() {
    assert_eq!(first_replaced("hotel h", "h", "AND_1"), "AND_1otel h");
    assert_eq!(first_replaced("oh oh", "oh", "X"), "X oh");
    assert_eq!(first_replaced("abc", "d", "X"), "abc");
    assert_eq!(first_replaced("abc", "abc", ""), "");
    assert_eq!(first_replaced("abc", "", "-"), "-abc");
}

#[test]
fn splitting_into_words() {
    let list: Vec<String> = split_words(&chars_of("  el\tperro \n ladra  "))
        .iter()
        .map(string_of)
        .collect();
    assert_eq!(list, vec!["el", "perro", "ladra"]);
    assert!(split_words(&chars_of(" \u{a0}\u{2003} ")).is_empty());
    assert!(split_words(&chars_of("")).is_empty());
    assert_eq!(measure_word(&chars_of("el perro"), 3), 5);
    assert_eq!(measure_word(&chars_of("el perro"), 2), 0);
    assert_eq!(measure_word(&chars_of("el perro"), 8), 0);
    assert_eq!(measure_word(&chars_of("el perro"), 80), 0);
}

#[test]
fn decimal_numerals() {
    assert_eq!(string_of(&decimal_of(0)), "0");
    assert_eq!(string_of(&decimal_of(7)), "7");
    assert_eq!(string_of(&decimal_of(10)), "10");
    assert_eq!(string_of(&decimal_of(1234567890)), "1234567890");
}
