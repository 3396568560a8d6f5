//! The language catalog and extension-based detection.

use stackscan::languages::{detect_lang, languages, others, raw_list, LangType};

#[test]
fn test_raw_list() {
    let list = raw_list();
    assert!(!list.is_empty());

    let first = &list[0];
    assert_eq!(first.name, "1C Enterprise");
    assert_eq!(first.extensions, vec![".bsl", ".os"]);
    assert!(matches!(first.lang_type, LangType::Programming));
}

#[test]
fn test_languages() {
    let langs = languages();
    assert!(langs.iter().all(|l| matches!(l.lang_type, LangType::Programming)));
    assert!(langs.iter().any(|l| l.name == "1C Enterprise"));
}

#[test]
fn test_others() {
    let other_langs = others();
    assert!(other_langs.iter().all(|l| !matches!(l.lang_type, LangType::Programming)));
    assert!(other_langs.iter().any(|l| l.name == "2-Dimensional Array"));
}

#[test]
fn languages_test_detect_lang() {
    let bsl_file = detect_lang("test.bsl");
    assert!(bsl_file.is_some());
    assert_eq!(bsl_file.unwrap().name, "1C Enterprise");

    let data_file = detect_lang("test.2da");
    assert!(data_file.is_some());
    assert_eq!(data_file.unwrap().name, "2-Dimensional Array");

    let invalid_file = detect_lang("test.nonexistent");
    assert!(invalid_file.is_none());

    let no_ext = detect_lang("testfile");
    assert!(no_ext.is_none());
}

#[test]
fn test_detect_lang_uses_last_extension() {
    let rs = detect_lang("mod.test.rs");
    assert_eq!(rs.unwrap().name, "Rust");

    assert!(detect_lang("archive.tar.gz").is_none());
    assert!(detect_lang(".hidden").is_none());
}
