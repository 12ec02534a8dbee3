use rosin_core::localization::{translation_from_str, TranslationError};
use rosin_core::number::use_grouping;
use unic_langid::LanguageIdentifier;

fn en() -> LanguageIdentifier {
    "en-US".parse().unwrap()
}

#[test]
fn translation_needs_a_locale() {
    assert!(matches!(translation_from_str(vec![], "hello = Hi"), Err(TranslationError::NoLocales)));
}

#[test]
fn translation_reads_messages() {
    let file = translation_from_str(vec![en()], "hello = Hi\nbye = Bye\n").unwrap();
    assert_eq!(file.parse_errors, 0);
    assert_eq!(file.overridden, 0);
    assert!(file.bundle.has_message("hello"));
    assert!(file.bundle.has_message("bye"));
    assert_eq!(file.bundle.locales, vec![en()]);
}

#[test]
fn translation_counts_and_skips_errors() {
    let file = translation_from_str(vec![en()], "hello = Hi\n!!! nonsense\nbye = Bye\nhello = Again\n").unwrap();
    assert_eq!(file.parse_errors, 1);
    assert_eq!(file.overridden, 1);
    assert!(file.bundle.has_message("bye"));
}

#[test]
fn grouping_option() {
    assert!(use_grouping(None));
    assert!(!use_grouping(Some("false")));
    assert!(use_grouping(Some("true")));
    assert!(use_grouping(Some("False")));
    assert!(use_grouping(Some("fals")));
}

#[test]
fn translation_terms_share_ids_with_messages() {
    let file = translation_from_str(vec![en()], "brand = B\n-brand = T\nother = O\n").unwrap();
    assert_eq!(file.parse_errors, 0);
    assert_eq!(file.overridden, 1);
    assert!(file.bundle.has_message("brand"));
    assert!(file.bundle.has_message("other"));
}
