use plojo::base::Stroke;
use plojo::legacy::dictionary::Dictionary;
use plojo::legacy::translate::translate_strokes;
use plojo::legacy::Translation;

fn setup_dict() -> Dictionary {
    Dictionary::new(vec![
        (Stroke::new("H-L"), Translation::text("Hello")),
        (Stroke::new("WORLD"), Translation::text("World")),
        (Stroke::new("H-L/A"), Translation::text("He..llo")),
        (Stroke::new("A"), Translation::text("Wrong thing")),
        (Stroke::new("TPHO/WUPB"), Translation::text("no one")),
        (Stroke::new("KW/A/TP"), Translation::text("request an if")),
        (
            Stroke::new("H-L/A/WORLD"),
            Translation::text("hello a world"),
        ),
        (
            Stroke::new("KW/H-L/WORLD"),
            Translation::text("request a hello world"),
        ),
    ])
}

#[test]
fn test_translator_basic() {
    let dict = setup_dict();
    let strokes = vec![Stroke::new("H-L")];
    let translations = translate_strokes(&strokes, &dict);

    assert_eq!(translations, vec![Translation::text("Hello")]);
}

#[test]
fn test_translator_multistroke() {
    let dict = setup_dict();
    let strokes = vec![Stroke::new("A"), Stroke::new("H-L")];
    let translations = translate_strokes(&strokes, &dict);

    assert_eq!(
        translations,
        vec![Translation::text("Wrong thing"), Translation::text("Hello")]
    );
}

#[test]
fn test_translator_correction() {
    let dict = setup_dict();
    let strokes = vec![Stroke::new("H-L"), Stroke::new("A")];
    let translations = translate_strokes(&strokes, &dict);

    assert_eq!(translations, vec![Translation::text("He..llo")]);
}

#[test]
fn test_translator_correction_with_history() {
    let dict = setup_dict();
    let strokes = vec![Stroke::new("WORLD"), Stroke::new("H-L"), Stroke::new("A")];
    let translations = translate_strokes(&strokes, &dict);

    assert_eq!(
        translations,
        vec![Translation::text("World"), Translation::text("He..llo")]
    );
}

#[test]
fn test_translator_unknown_stroke() {
    let dict = setup_dict();
    let strokes = vec![Stroke::new("SKWR")];
    let translations = translate_strokes(&strokes, &dict);

    assert_eq!(
        translations,
        vec![Translation::UnknownStroke(Stroke::new("SKWR"))]
    );
}

#[test]
fn test_translator_all_unknown_stroke() {
    let dict = setup_dict();
    let strokes = vec![
        Stroke::new("TPHO"),
        Stroke::new("TPHOU"),
        Stroke::new("TPHOUT"),
    ];

    let translations = translate_strokes(&strokes, &dict);

    assert_eq!(
        translations,
        vec![
            Translation::UnknownStroke(Stroke::new("TPHO")),
            Translation::UnknownStroke(Stroke::new("TPHOU")),
            Translation::UnknownStroke(Stroke::new("TPHOUT"))
        ]
    );
}

#[test]
fn test_translator_multi_unknown_stroke() {
    let dict = setup_dict();
    let strokes = vec![
        Stroke::new("TPHO"),
        Stroke::new("TPHOU"),
        Stroke::new("TPHO"),
        Stroke::new("WUPB"),
    ];

    let translations = translate_strokes(&strokes, &dict);

    assert_eq!(
        translations,
        vec![
            Translation::UnknownStroke(Stroke::new("TPHO")),
            Translation::UnknownStroke(Stroke::new("TPHOU")),
            Translation::Text("no one".to_string())
        ]
    );
}

#[test]
fn test_translator_middle_unknown() {
    let dict = setup_dict();
    let strokes = vec![Stroke::new("H-L"), Stroke::new("A"), Stroke::new("WORLD")];

    let translations = translate_strokes(&strokes, &dict);

    assert_eq!(
        translations,
        vec![Translation::Text("hello a world".to_string())]
    );
}

#[test]
fn test_translator_around_unknown() {
    let dict = setup_dict();
    let strokes = vec![Stroke::new("KW"), Stroke::new("A"), Stroke::new("TP")];

    let translations = translate_strokes(&strokes, &dict);

    assert_eq!(
        translations,
        vec![Translation::Text("request an if".to_string())]
    );
}

#[test]
fn test_translator_beginning_unknown() {
    let dict = setup_dict();
    let strokes = vec![Stroke::new("KW"), Stroke::new("H-L"), Stroke::new("WORLD")];

    let translations = translate_strokes(&strokes, &dict);

    assert_eq!(
        translations,
        vec![Translation::Text("request a hello world".to_string())]
    );
}
