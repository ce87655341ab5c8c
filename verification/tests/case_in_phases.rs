use andaluh::text::{chars_of, string_of};
use andaluh::{apply_phase, epa, Phase};

const PHASES: [Phase; 13] = [
    Phase::Aspirate,
    Phase::Fricative,
    Phase::Affricate,
    Phase::Velar,
    Phase::Labial,
    Phase::Palatal,
    Phase::Liquid,
    Phase::LearnedPrefix,
    Phase::Sibilant,
    Phase::WordEnding,
    Phase::Digraph,
    Phase::LexicalException,
    Phase::WordInteraction,
];

const WORDS: [&str; 60] = [
    "hotel", "zanahoria", "chihuahua", "cacahuete", "oh", "yihad", "xilófono", "axila", "éxito",
    "chungo", "escuchar", "guijarrito", "abuelo", "vergüenza", "buen", "jamón", "jet", "gin",
    "envidia", "valor", "vis", "lleva", "valla", "grill", "silbar", "acolchado", "psicologo",
    "pseudoescritor", "zaragoza", "solsticio", "cielo", "madrid", "tazas", "disfraz", "colocados",
    "tomate", "tríceps", "triceps", "malnacidas", "casada", "roido", "anís", "césped", "çed",
    "cual", "fabada", "asfixian", "conmemorar", "atlántico", "abstracto", "perspectiva",
    "aerotransporte", "translado", "intersticial", "aislante", "crack", "para", "todo", "muy",
    "spray",
];

fn run(phase: Phase, text: &str) -> String {
    string_of(&apply_phase(phase, &chars_of(text)).unwrap())
}

#[test]
fn lowercase_words_come_out_in_lower_case() {
    for phase in PHASES {
        for word in WORDS {
            let out = run(phase, word);
            assert_eq!(out, out.to_lowercase(), "{:?} on {}", phase, word);
        }
    }
}

#[test]
fn uppercase_words_come_out_in_upper_case() {
    for phase in PHASES {
        for word in WORDS {
            let out = run(phase, &word.to_uppercase());
            assert_eq!(out, out.to_uppercase(), "{:?} on {}", phase, word);
            assert_eq!(out, run(phase, word).to_uppercase(), "{:?} on {}", phase, word);
        }
    }
}

#[test]
fn the_pipeline_keeps_the_case_of_words() {
    for word in WORDS {
        let lower = epa(word).unwrap();
        let upper = epa(&word.to_uppercase()).unwrap();
        assert_eq!(lower, lower.to_lowercase());
        assert_eq!(upper, lower.to_uppercase());
    }
}

#[test]
fn mixed_case_is_mirrored() {
    assert_eq!(
        run(Phase::Aspirate, "cacaHuEte chihUahua Harina hArina"),
        "cacaGüEte chigUagua Arina arina"
    );
    assert_eq!(run(Phase::Fricative, "aXila Axila aXIla"), "âÇÇila Âççila âÇÇIla");
    assert_eq!(run(Phase::Labial, "eNvidia enVidia"), "eMbidia emBidia");
    assert_eq!(run(Phase::Palatal, "LLeva Lleva lLeva"), "Yeva Yeva yeva");
    assert_eq!(run(Phase::WordEnding, "madriD madrId"), "madrîH madrÎh");
    assert_eq!(run(Phase::Digraph, "aTlas atLas"), "âl-las âL-Las");
    assert_eq!(run(Phase::LexicalException, "PaRa pARA"), "Pa pA");
    assert_eq!(run(Phase::WordInteraction, "eL perro El perro"), "eR perro Er perro");
}

#[test]
fn text_outside_the_alphabet_passes_through() {
    let text = "👨‍👩‍👧 123 — «¿?» 日本語 e\u{301}\u{302} \u{1F1EA}\u{1F1F8}";
    for phase in PHASES {
        assert_eq!(run(phase, text), text, "{:?}", phase);
    }
    assert_eq!(epa(text).unwrap(), text);
    assert_eq!(epa("👨‍👩‍👧 hola").unwrap(), "👨‍👩‍👧 ola");
}
