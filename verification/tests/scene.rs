use lumina::scene::{background_name, join_strings, sprite_info, SpriteRecord};

fn sprite(t: &str, pos: Option<&str>, attrs: &[&str]) -> SpriteRecord {
    SpriteRecord {
        target: t.to_string(),
        position: pos.map(|p| p.to_string()),
        attrs: attrs.iter().map(|a| a.to_string()).collect(),
    }
}

#[test]
fn background_name_joins_attrs() {
    let layer = vec![sprite("bg_room", None, &["night", "rain"]), sprite("alice", Some("left"), &[])];
    assert_eq!(background_name(Some(&layer)), Some("bg_room_night_rain".to_string()));
    let plain = vec![sprite("park", None, &[])];
    assert_eq!(background_name(Some(&plain)), Some("park".to_string()));
    assert_eq!(background_name(Some(&vec![])), None);
    assert_eq!(background_name(None), None);
}

#[test]
fn sprite_info_finds_first_match() {
    let layer = vec![
        sprite("bg", None, &[]),
        sprite("alice", Some("left"), &["smile"]),
        sprite("alice", Some("right"), &["sad"]),
    ];
    assert_eq!(
        sprite_info(Some(&layer), "alice"),
        (Some("left".to_string()), Some(vec!["smile".to_string()]))
    );
    assert_eq!(sprite_info(Some(&layer), "bob"), (None, None));
    assert_eq!(sprite_info(None, "alice"), (None, None));
    assert_eq!(sprite_info(Some(&layer), "bg"), (None, Some(vec![])));
}

#[test]
fn join_with_separator() {
    let v: Vec<String> = vec!["a".into(), "b".into(), "c".into()];
    assert_eq!(join_strings(&v, "_"), "a_b_c");
    assert_eq!(join_strings(&vec![], "_"), "");
    assert_eq!(join_strings(&vec!["x".to_string()], "_"), "x");
}
