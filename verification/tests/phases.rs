use andaluh::{
    ch_rule, digraph_rule, epa, exception_rule, gj_rule, h_rule, l_rule, ll_rule, psico_rule,
    v_rule, vaf_rule, word_ending_rule, word_interaction_rule, x_rule,
};

#[test]
fn test_h_rule() {
    let input = "hotel HOTEL zanahoria harina chihUahua cacaHuEte escuchar";
    let expected = "otel OTEL zanaoria arina chigUagua cacaGüEte escuchar";

    let output = h_rule(input).expect("Wrong parser");
    assert_eq!(output, expected);
}

#[test]
fn test_x_rule() {
    let input = "Xilófono axila éxito xenofobia";
    let expected = "Çilófono âççila éççito çenofobia";

    let output = x_rule(input).expect("Wrong parser");
    assert_eq!(output, expected);
}

#[test]
fn test_ch_rule() {
    let input = "Chungo Chachi escuchar";
    let expected = "Xungo Xaxi escuxar";

    let output = ch_rule(input).expect("Wrong parser");
    assert_eq!(output, expected);
}

#[test]
fn test_gj_rule() {
    let input = "Guijarrito ABuelo VERGÜENZA BUEN jamón";
    let expected = "Giharrito AGuelo VERGUENZA GUEN hamón";

    let output = gj_rule(input).expect("Wrong parser");
    assert_eq!(output, expected);
}

#[test]
fn test_v_rule() {
    let input = "envidia valor lleva";
    let expected = "embidia balor lleba";

    let output = v_rule(input).expect("Wrong parser");
    assert_eq!(output, expected);
}

#[test]
fn test_ll_rule() {
    let input = "lleva valla";
    let expected = "yeva vaya";

    let output = ll_rule(input).expect("Wrong parser");
    assert_eq!(output, expected);
}

#[test]
fn test_l_rule() {
    let input = "silbar acolchado";
    let expected = "sirbar acorchado";

    let output = l_rule(input).expect("Wrong parser");
    assert_eq!(output, expected);
}

#[test]
fn test_psico_rule() {
    let input = "psicologo pseudoescritor";
    let expected = "sicologo seudoescritor";

    let output = psico_rule(input).expect("Wrong parser");
    assert_eq!(output, expected);
}

#[test]
fn test_vaf_rule() {
    let input = "Zaragoza solsticio";
    let expected = "Çaragoça çolstiçio";

    let output = vaf_rule(input).expect("Wrong parser");
    assert_eq!(output, expected);
}

#[test]
fn test_word_ending_rule() {
    let input = "Madrid tazas disfraz Colocados tomate tríceps triceps malnacidas";
    let expected = "Madrîh tazâ disfrâh Colocáô tomate trícê triceps malnacidâ";

    let output = word_ending_rule(input).expect("Wrong parser");
    assert_eq!(output, expected);
}

#[test]
fn test_digraph_rule() {
    let input = "asfixian Conmemorar atlántico abstracto perspectiva aerotransporte translado intersticial solsticio superstición aislante";
    let expected = "âffixian Cômmemorar âl-lántico âttrâtto perppêttiva aerotrâpporte trâl-lado intertticial sortticio superttición aîl-lante";

    let output = digraph_rule(input).expect("Wrong parser");
    assert_eq!(output, expected);
}

#[test]
fn test_exception_rule() {
    let input = "tomate biêmmandao TuRuRú crack";
    let expected = "tomate bienmandao TuRuRú crâh";

    let output = exception_rule(input).expect("Wrong parser");
    assert_eq!(output, expected);
}

#[test]
fn test_word_interaction_rule() {
    let input = "el transcurso";
    let expected = "er transcurso";

    let output = word_interaction_rule(input).expect("Wrong parser");
    assert_eq!(output, expected);
}

#[test]
fn test_epa() {
    let test_strings = vec![
        (
        "Todo Xenomorfo dice: [haber], que el Éxito y el éxtasis asfixian, si no eres un xilófono Chungo.",
        "Tó Çenomorfo diçe: [abêh], que el Éççito y el éttaçî âffîççian, çi no erê un çilófono Xungo."
        ),
        (
        "Lleva un Guijarrito el ABuelo, ¡Qué Bueno! ¡para la VERGÜENZA!",
        "Yeba un Giharrito el AGuelo, ¡Qué Gueno! ¡pa la BERGUENÇA!"
        ),
        (
        "VALLA valla, si vas toda de ENVIDIA",
        "BAYA baya, çi bâ toa de EMBIDIA"
        ),
        (
        "Alrededor de la Alpaca había un ALfabeto ALTIVO de valkirias malnacidas",
        "Arrededôh de la Arpaca abía un ARfabeto ARTIBO de barkiriâ mânnaçidâ"
        ),
        (
        "En la Zaragoza y el Japón asexual se Sabía SÉriamente sILBAR con el COxis",
        "En la Çaragoça y er Hapón açêççuâh çe Çabía ÇÉriamente çIRBÂH con er CÔççî"
        ),
        (
        "Transportandonos a la connotación perspicaz del abstracto solsticio de Alaska, el aislante plástico adsorvente asfixió al aMnésico pseudoescritor granadino de constituciones, para ConMemorar broncas adscritas",
        "Trâpportandonô a la cônnotaçión perppicâh del âttrâtto çorttiçio de Alâkka, el aîl-lante pláttico âççorbente âffîççió al ânnéçico çeudoêccritôh granadino de côttituçionê, pa CôMMemorâh broncâ âccritâ"
        ),
        (
        "En la postmodernidad, el transcurso de los transportes y translados en postoperatorios transcienden a la postre unas postillas postpalatales apostilladas se transfieren",
        "En la pômmodênnidá, er trâccurço de lô trâpportê y trâl-láô en pôttoperatoriô trâççienden a la pôttre unâ pôttiyâ pôppalatalê apôttiyâh çe trâffieren"
        ),
        (
        "Venid todos a correr en anorak de visón a Cádiz con actitud y maldad, para escuchar el tríceps de Albéniz tocar ápud con virtud de laúd.",
        "Benîh tôh a corrêh en anorâh de biçón a Cádî con âttitûh y mardá, pa êccuxâh er tríçê de Arbénî tocâh ápû con birtûh de laûh."
        ),
        (
        "Una comida fabada con fado, y sin descuido será casada y amarrada al acolchado roido.",
        "Una comida fabada con fado, y çin dêccuido çerá caçá y amarrá al acorxao roío."
        ),
        (
        "Los SABuesos ChiHuaHUA comían cacaHuETes, FramBuESas y Heno, ¡y HABLAN con hálito de ESPANGLISH!",
        "Lô ÇAGueçô XiGuaGUA comían cacaGuETê, FramBuEÇâ y Eno, ¡y ABLAN con álito de ÊPPANGLÎ!"
        ),
    ];

    for (input, expected) in test_strings {
        let output = epa(input).expect("Wrong parser");
        assert_eq!(output, expected);
    }
}
