use plojo::base::stroke::to_number_stroke;
use plojo::base::{RawStroke, Stroke};
use plojo::geminipr::parse_raw;

#[test]
fn test_to_number_stroke() {
    assert_eq!(to_number_stroke("STPH"), String::from("1234"));
    assert_eq!(to_number_stroke("P-FP"), String::from("3-67"));
    assert_eq!(to_number_stroke("-S"), String::from("-S"));
    assert_eq!(to_number_stroke("PWHO"), String::from("3W40"));
}

#[test]
fn test_from_raw_stroke() {
    assert_eq!(
        Stroke::from(RawStroke {
            num_key: false,
            left_hand: "STP".to_string(),
            center_left: "".to_string(),
            star_key: true,
            center_right: "".to_string(),
            right_hand: "T".to_string(),
        }),
        Stroke::new("STP*T")
    );
    assert_eq!(
        Stroke::from(RawStroke {
            num_key: true,
            left_hand: "".to_string(),
            center_left: "".to_string(),
            star_key: false,
            center_right: "".to_string(),
            right_hand: "G".to_string(),
        }),
        Stroke::new("#-G")
    );
    assert_eq!(
        Stroke::from(RawStroke {
            num_key: false,
            left_hand: "KP".to_string(),
            center_left: "AO".to_string(),
            star_key: false,
            center_right: "EU".to_string(),
            right_hand: "DZ".to_string(),
        }),
        Stroke::new("KPAOEUDZ")
    );
}

#[test]
fn test_basic_stroke_parsing() {
    assert_eq!(parse_raw(&vec![128, 48, 36, 0, 2, 0]), Stroke::new("STA*S"));
    assert_eq!(parse_raw(&vec![160, 2, 0, 0, 32, 64]), Stroke::new("#W-B"));
    assert_eq!(
        parse_raw(&vec![160, 127, 124, 63, 127, 65]),
        Stroke::new("12K3W4R50*EU6R7B8G9SDZ")
    );
    assert_eq!(parse_raw(&vec![128, 21, 0, 0, 0, 0]), Stroke::new("TPH"));
    assert_eq!(parse_raw(&vec![128, 0, 64, 0, 64, 0]), Stroke::new("R-P"));
    assert_eq!(parse_raw(&vec![128, 1, 0, 2, 0, 64]), Stroke::new("4-6"));
    assert_eq!(parse_raw(&vec![128, 1, 32, 2, 0, 64]), Stroke::new("456"));
    assert_eq!(parse_raw(&vec![128, 68, 0, 0, 4, 64]), Stroke::new("13-9"));
}
