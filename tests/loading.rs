use lanxls::loader::{language_from_json, load_languages, Lan, LoadError, SourceFile};
use lanxls::session::{stage_after_load, Stage};

fn file(stem: &str, extension: Option<&str>, contents: &str) -> SourceFile {
    SourceFile {
        stem: stem.to_string(),
        extension: extension.map(|e| e.to_string()),
        contents: contents.as_bytes().to_vec(),
    }
}

fn texts(lan: &Lan) -> Vec<&str> {
    lan.texts.iter().map(|t| t.as_str()).collect()
}

#[test]
fn en_file_contributes_its_keys() {
    let lan = language_from_json(
        "en".to_string(),
        br#"{"hello":"Hello","bye":"Bye"}"#,
    )
    .unwrap();
    assert_eq!(lan.name, "en");
    assert_eq!(texts(&lan), vec!["hello", "bye"]);
}

#[test]
fn other_file_contributes_its_values() {
    let lan = language_from_json(
        "fr".to_string(),
        br#"{"hello":"Bonjour","bye":"Au revoir"}"#,
    )
    .unwrap();
    assert_eq!(lan.name, "fr");
    assert_eq!(texts(&lan), vec!["Bonjour", "Au revoir"]);
}

#[test]
fn object_order_is_kept_not_sorted() {
    let lan = language_from_json("de".to_string(), br#"{"z":"1","a":"2","m":"3"}"#).unwrap();
    assert_eq!(texts(&lan), vec!["1", "2", "3"]);
}

#[test]
fn en_values_may_be_anything() {
    let lan = language_from_json("en".to_string(), br#"{"k":1,"j":null}"#).unwrap();
    assert_eq!(texts(&lan), vec!["k", "j"]);
}

#[test]
fn non_string_value_is_rejected() {
    let r = language_from_json("fr".to_string(), br#"{"k":"v","n":3}"#);
    assert!(matches!(r, Err(LoadError::NonStringValue)));
}

#[test]
fn top_level_array_is_rejected() {
    let r = language_from_json("fr".to_string(), br#"["a","b"]"#);
    assert!(matches!(r, Err(LoadError::NotAnObject)));
}

#[test]
fn malformed_json_is_a_parse_error() {
    let r = language_from_json("fr".to_string(), br#"{"a":"#);
    assert!(matches!(r, Err(LoadError::Parse(_))));
}

#[test]
fn empty_object_gives_no_texts() {
    let lan = language_from_json("fr".to_string(), b"{}").unwrap();
    assert!(lan.texts.is_empty());
}

#[test]
fn readme_is_ignored() {
    let files = vec![
        file("en", Some("json"), r#"{"a":"1"}"#),
        file("readme", Some("txt"), ""),
        file("fr", Some("json"), r#"{"a":"un"}"#),
    ];
    let langs = load_languages(&files).unwrap();
    assert_eq!(langs.len(), 2);
    assert_eq!(langs[0].name, "en");
    assert_eq!(langs[1].name, "fr");
    assert_eq!(texts(&langs[1]), vec!["un"]);
}

#[test]
fn one_malformed_file_fails_the_load() {
    let files = vec![
        file("en", Some("json"), r#"{"a":"1"}"#),
        file("fr", Some("json"), r#"{"a": un}"#),
        file("de", Some("json"), r#"{"a":"eins"}"#),
    ];
    assert!(matches!(load_languages(&files), Err(LoadError::Parse(_))));
}

#[test]
fn entry_without_extension_fails_the_load() {
    let files = vec![
        file("en", Some("json"), r#"{"a":"1"}"#),
        file("LICENSE", None, ""),
    ];
    assert!(matches!(load_languages(&files), Err(LoadError::MissingExtension)));
}

#[test]
fn first_error_in_entry_order_is_reported() {
    let files = vec![
        file("fr", Some("json"), r#"[1]"#),
        file("LICENSE", None, ""),
    ];
    assert!(matches!(load_languages(&files), Err(LoadError::NotAnObject)));
}

#[test]
fn extension_must_be_exactly_json() {
    let files = vec![
        file("en", Some("JSON"), "not json at all"),
        file("fr", Some("jsonc"), "not json at all"),
    ];
    assert!(load_languages(&files).unwrap().is_empty());
}

#[test]
fn no_json_files_loads_nothing_and_asks_again() {
    let files = vec![file("readme", Some("txt"), ""), file("notes", Some("md"), "")];
    let loaded = load_languages(&files);
    assert!(loaded.as_ref().unwrap().is_empty());
    assert_eq!(stage_after_load(&loaded), Stage::AwaitingDirectory);
    let nothing = load_languages(&Vec::new());
    assert!(nothing.as_ref().unwrap().is_empty());
    assert_eq!(stage_after_load(&nothing), Stage::AwaitingDirectory);
}

#[test]
fn failed_load_asks_again_and_good_load_moves_on() {
    let bad = load_languages(&vec![file("x", None, "")]);
    assert_eq!(stage_after_load(&bad), Stage::AwaitingDirectory);
    let good = load_languages(&vec![file("en", Some("json"), r#"{"a":"1"}"#)]);
    assert_eq!(stage_after_load(&good), Stage::AwaitingOutputPath);
}

#[test]
fn same_keys_give_aligned_columns() {
    let files = vec![
        file("de", Some("json"), r#"{"x":"X-de","y":"Y-de","z":"Z-de"}"#),
        file("en", Some("json"), r#"{"x":"X","y":"Y","z":"Z"}"#),
        file("fr", Some("json"), r#"{"x":"X-fr","y":"Y-fr","z":"Z-fr"}"#),
    ];
    let langs = load_languages(&files).unwrap();
    assert_eq!(langs.len(), 3);
    for lan in &langs {
        assert_eq!(lan.texts.len(), 3);
    }
    assert_eq!(texts(&langs[0]), vec!["X-de", "Y-de", "Z-de"]);
    assert_eq!(texts(&langs[1]), vec!["x", "y", "z"]);
    assert_eq!(texts(&langs[2]), vec!["X-fr", "Y-fr", "Z-fr"]);
}
