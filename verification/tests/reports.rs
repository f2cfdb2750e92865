use locale_audit::document::CatalogParseError;
use locale_audit::reconcile::LocaleDiff;
use locale_audit::report::{decimal, failed_block, locale_block, unused_line};

fn owned(keys: &[&str]) -> Vec<String> {
    keys.iter().map(|key| key.to_string()).collect()
}

#[test]
fn numbers_are_written_in_decimal() {
    assert_eq!(decimal(0), "0");
    assert_eq!(decimal(7), "7");
    assert_eq!(decimal(9), "9");
    assert_eq!(decimal(10), "10");
    assert_eq!(decimal(42), "42");
    assert_eq!(decimal(100), "100");
    assert_eq!(decimal(1234567890), "1234567890");
    assert_eq!(decimal(usize::MAX), usize::MAX.to_string());
}

#[test]
fn unused_key_is_reported_on_one_line() {
    assert_eq!(unused_line("Title"), "Unused line: Title");
    assert_eq!(unused_line(""), "Unused line: ");
}

#[test]
fn locale_block_lists_missed_extra_and_untranslated() {
    let diff = LocaleDiff { missed: owned(&["B", "D"]), extra: owned(&["C"]), untranslated: 12 };
    assert_eq!(
        locale_block("de-DE/Resources.resw", &diff),
        "Name: de-DE/Resources.resw\n  Missed line: B\n  Missed line: D\n  Extra line: C\n  Untranslated lines: 12"
    );
}

#[test]
fn locale_block_of_a_complete_file() {
    let diff = LocaleDiff { missed: Vec::new(), extra: Vec::new(), untranslated: 0 };
    assert_eq!(locale_block("fr.resw", &diff), "Name: fr.resw\n  Untranslated lines: 0");
}

#[test]
fn failed_block_names_the_file_and_the_reason() {
    assert_eq!(
        failed_block("it.resw", "cannot read the file"),
        "Name: it.resw\n  Error: cannot read the file"
    );
}

#[test]
fn missing_name_says_which_entry() {
    let error = CatalogParseError::MissingName { entry: 17 };
    assert_eq!(error.message(), "no name attribute on entry 17");
}

#[test]
fn malformed_document_says_what_the_reader_said() {
    let error = CatalogParseError::Malformed { detail: "unexpected end".to_string() };
    assert_eq!(error.message(), "malformed document: unexpected end");
}

#[test]
fn malformed_document_carries_the_words_of_the_reader() {
    match locale_audit::document::load_reference_keys("<root><a></b></root>") {
        Err(error) => {
            let message = error.message();
            assert!(message.starts_with("malformed document: "));
            assert!(message.len() > "malformed document: ".len());
        },
        Ok(_) => panic!("the document is not well-formed"),
    }
}
