use falconshot::settings_tree::SettingsTree;

fn scalar(text: &str) -> SettingsTree {
    SettingsTree::Scalar(text.to_string())
}

fn sample() -> SettingsTree {
    SettingsTree::Object(vec![
        (
            "general".to_string(),
            SettingsTree::Object(vec![
                ("language".to_string(), scalar("\"system\"")),
                ("launch_on_startup".to_string(), scalar("false")),
            ]),
        ),
        ("ai".to_string(), SettingsTree::Object(vec![("base_url".to_string(), SettingsTree::Null)])),
        ("appearance".to_string(), SettingsTree::Object(vec![("mask_color".to_string(), scalar("[0,0,0,100]"))])),
    ])
}

fn text_of(t: Option<SettingsTree>) -> Option<String> {
    match t {
        Some(SettingsTree::Scalar(s)) => Some(s),
        _ => None,
    }
}

fn member_names(t: Option<SettingsTree>) -> Vec<String> {
    match t {
        Some(SettingsTree::Object(es)) => es.into_iter().map(|(k, _)| k).collect(),
        _ => Vec::new(),
    }
}

#[test]
fn tree_get_value_reads_nested_member() {
    assert_eq!(text_of(sample().get_value("general.language")), Some("\"system\"".to_string()));
    assert_eq!(text_of(sample().get_value("appearance.mask_color")), Some("[0,0,0,100]".to_string()));
}

#[test]
fn tree_get_value_missing_key_is_none() {
    assert!(sample().get_value("nonexistent.key").is_none());
    assert!(sample().get_value("general.language.deeper").is_none());
    assert!(sample().get_value("").is_none());
}

#[test]
fn tree_get_value_section_is_object() {
    assert_eq!(member_names(sample().get_value("general")), vec!["language".to_string(), "launch_on_startup".to_string()]);
    assert!(matches!(sample().get_value("ai.base_url"), Some(SettingsTree::Null)));
}

#[test]
fn tree_set_then_get_gives_value_back() {
    let t = sample().set_value("general.language", scalar("\"en-US\"")).ok().unwrap();
    let t2 = sample().set_value("general.language", scalar("\"en-US\"")).ok().unwrap();
    assert_eq!(text_of(t.get_value("general.language")), Some("\"en-US\"".to_string()));
    assert_eq!(text_of(t2.get_value("general.launch_on_startup")), Some("false".to_string()));
}

#[test]
fn tree_set_keeps_member_order_and_appends_new_ones() {
    let t = sample().set_value("general.default_save_dir", scalar("\"/tmp\"")).ok().unwrap();
    assert_eq!(
        member_names(t.get_value("general")),
        vec!["language".to_string(), "launch_on_startup".to_string(), "default_save_dir".to_string()]
    );
    let t = sample().set_value("general.language", scalar("\"ja\"")).ok().unwrap();
    assert_eq!(member_names(t.get_value("general")), vec!["language".to_string(), "launch_on_startup".to_string()]);
}

#[test]
fn tree_set_missing_section_is_an_error() {
    match sample().set_value("missing.x", scalar("1")) {
        Err(m) => assert_eq!(m, "Key path not found: missing.x"),
        Ok(_) => panic!("a missing section must be refused"),
    }
}

#[test]
fn tree_set_into_null_makes_an_object() {
    let t = sample().set_value("ai.base_url.host", scalar("\"x\"")).ok().unwrap();
    assert_eq!(text_of(t.get_value("ai.base_url.host")), Some("\"x\"".to_string()));
}

#[test]
fn tree_set_whole_section_replaces_it() {
    let t = sample().set_value("general", SettingsTree::Null).ok().unwrap();
    assert!(matches!(t.get_value("general"), Some(SettingsTree::Null)));
}

#[test]
fn tree_non_object_target_is_reported() {
    let t = sample();
    assert!(t.set_value_reaches_non_object("general.language.x"));
    assert!(t.set_value_reaches_non_object("appearance.mask_color.r"));
    assert!(!t.set_value_reaches_non_object("general.language"));
    assert!(!t.set_value_reaches_non_object("ai.base_url.host"));
    assert!(!t.set_value_reaches_non_object("missing.x.y"));
    assert!(!scalar("1").set_value_reaches_non_object("a.b"));
    assert!(scalar("1").set_value_reaches_non_object("a"));
}
