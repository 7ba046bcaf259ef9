use lumina::ui::{
    child_props, color_prop_is_readable, get_align_prop, get_color_prop, get_prop_val, get_string_prop, is_dynamic_value,
    Alignment, ContainerKind, Rgba, UiProp, UiStmt, WidgetKind,
};

fn prop(k: &str, v: &str) -> UiProp {
    UiProp { key: k.to_string(), val: v.to_string() }
}

fn color(v: &str) -> Option<Rgba> {
    get_color_prop(&[prop("bg", v)], "bg")
}

#[test]
fn first_property_with_key_wins() {
    let props = vec![prop("x", "1"), prop("action", "continue"), prop("action", "quit")];
    assert_eq!(get_prop_val(&props, "action").map(|s| s.as_str()), Some("continue"));
    assert_eq!(get_prop_val(&props, "y"), None);
    assert_eq!(get_string_prop(&props, "x"), Some("1".to_string()));
    assert_eq!(get_string_prop(&[], "x"), None);
}

#[test]
fn six_digit_color_is_opaque() {
    assert_eq!(color("#ff8000"), Some(Rgba { r: 255, g: 128, b: 0, a: 255 }));
    assert_eq!(color("#FF8000"), Some(Rgba { r: 255, g: 128, b: 0, a: 255 }));
}

#[test]
fn eight_digit_color_has_alpha() {
    assert_eq!(color("#10203040"), Some(Rgba { r: 16, g: 32, b: 48, a: 64 }));
}

#[test]
fn leading_hashes_are_ignored() {
    assert_eq!(color("ff8000"), Some(Rgba { r: 255, g: 128, b: 0, a: 255 }));
    assert_eq!(color("###ff8000"), Some(Rgba { r: 255, g: 128, b: 0, a: 255 }));
}

#[test]
fn wrong_length_or_digits_give_no_color() {
    assert_eq!(color("#fff"), None);
    assert_eq!(color("#ff80000"), None);
    assert_eq!(color("#gg8000"), None);
    assert_eq!(color("#ff80-0"), None);
    assert_eq!(color(""), None);
    assert_eq!(get_color_prop(&[prop("color", "#ffffff")], "bg"), None);
}

#[test]
fn plus_sign_pairs_parse_like_from_str_radix() {
    assert_eq!(color("#+f+f+f"), Some(Rgba { r: 15, g: 15, b: 15, a: 255 }));
    assert_eq!(u8::from_str_radix("+f", 16), Ok(15));
    assert_eq!(color("#++0000"), None);
}

#[test]
fn non_ascii_pairs_give_no_color() {
    // "éé" and "é" are two bytes each: slicing stays on character boundaries.
    assert_eq!(color("#éééé"), None);
    assert_eq!(color("#00éé00"), None);
}

#[test]
fn alignment_prop() {
    assert_eq!(get_align_prop(&[prop("align", "center")]), Alignment::Center);
    assert_eq!(get_align_prop(&[prop("align", "right")]), Alignment::End);
    assert_eq!(get_align_prop(&[prop("align", "end")]), Alignment::End);
    assert_eq!(get_align_prop(&[prop("align", "left")]), Alignment::Start);
    assert_eq!(get_align_prop(&[]), Alignment::Start);
}

#[test]
fn dynamic_values() {
    assert!(is_dynamic_value("f.name"));
    assert!(is_dynamic_value("sf.score"));
    assert!(!is_dynamic_value("Hello"));
    assert!(!is_dynamic_value("f"));
    assert!(!is_dynamic_value(" f.x"));
}

#[test]
fn child_props_of_both_kinds() {
    let c = UiStmt::Container {
        kind: ContainerKind::VBox,
        props: vec![prop("bg", "#000000")],
        children: vec![],
    };
    let w = UiStmt::Widget {
        kind: WidgetKind::Text,
        value: Some("hi".to_string()),
        props: vec![prop("size", "24"), prop("color", "#ffffff")],
    };
    assert_eq!(child_props(&c).len(), 1);
    assert_eq!(child_props(&w).len(), 2);
    assert_eq!(child_props(&w)[0].key, "size");
}

#[test]
fn readability_of_color_props() {
    let r = |v: &str| color_prop_is_readable(&[prop("bg", v)], "bg");
    assert!(r("#ff8000"));
    assert!(r("#fff"));
    assert!(r("#éééé"));
    assert!(r("#00éé00"));
    assert!(r("#zz€000"));
    assert!(!r("#0€00"));
    assert!(!r("#a€ab"));
    assert!(!r("##00€0"));
    assert!(color_prop_is_readable(&[], "bg"));
}

#[test]
fn unreadable_color_panics_when_sliced() {
    let hex = "0€00";
    assert!(!hex.is_char_boundary(2));
}
