use sucrose::ident::NameError;
use sucrose::ident::dir_stem;
use sucrose::ident::file_stem;
use sucrose::ident::sanitize;

#[test]
fn stem_takes_last_component_before_first_dot() {
    assert_eq!(file_stem("res/Goblin Scout.toml").as_str(), "Goblin Scout");
    assert_eq!(file_stem("a.b.c.toml").as_str(), "a");
    assert_eq!(file_stem("plain").as_str(), "plain");
    assert_eq!(file_stem("dir/sub/name.ext").as_str(), "name");
    assert_eq!(file_stem("dir/").as_str(), "");
}

#[test]
fn sanitize_converts_to_upper_snake() {
    let name = sanitize("res/Goblin Scout.toml").unwrap();
    assert_eq!(name.as_str(), "GOBLIN_SCOUT");
}

#[test]
fn sanitize_uses_only_text_before_first_dot() {
    let name = sanitize("a.b.c.toml").unwrap();
    assert_eq!(name.as_str(), "A");
}

#[test]
fn sanitize_mixed_case_names() {
    assert_eq!(sanitize("heavyArmor.toml").unwrap().as_str(), "HEAVY_ARMOR");
    assert_eq!(sanitize("heavy_armor.toml").unwrap().as_str(), "HEAVY_ARMOR");
}

#[test]
fn sanitize_rejects_leading_digit() {
    let r = sanitize("123.toml");
    match r {
        Err(NameError::NonIdentifier(bad)) => assert_eq!(bad.as_str(), "123"),
        Ok(name) => panic!("leading digit accepted as {}", name),
    }
}

#[test]
fn sanitize_rejects_empty_stem() {
    assert!(sanitize(".hidden").is_err());
}

#[test]
fn dir_stem_keeps_component_before_last_dot() {
    assert_eq!(dir_stem("res/characters").as_str(), "characters");
    assert_eq!(dir_stem("res/characters.d").as_str(), "characters");
    assert_eq!(dir_stem("res/a.b.c").as_str(), "a.b");
    assert_eq!(dir_stem(".hidden").as_str(), ".hidden");
}
