use rlibxml::{ErrorLevel, XmlError};

#[test]
fn level_from_raw_values() {
    assert_eq!(ErrorLevel::from_raw(0), ErrorLevel::None_);
    assert_eq!(ErrorLevel::from_raw(1), ErrorLevel::Warning);
    assert_eq!(ErrorLevel::from_raw(2), ErrorLevel::Error);
    assert_eq!(ErrorLevel::from_raw(3), ErrorLevel::Fatal);
    assert_eq!(ErrorLevel::from_raw(7), ErrorLevel::Error);
}

#[test]
fn level_names() {
    assert_eq!(ErrorLevel::None_.describe(), "none");
    assert_eq!(ErrorLevel::Warning.describe(), "warning");
    assert_eq!(ErrorLevel::Error.describe(), "error");
    assert_eq!(ErrorLevel::Fatal.describe(), "fatal");
}

#[test]
fn error_from_parts_defaults_message() {
    let e = XmlError::from_parts(1, 76, None, 3, None, 0);
    assert_eq!(e.message, "unknown error");
    assert_eq!(e.level, ErrorLevel::Fatal);
    assert_eq!(e.domain, 1);
    assert_eq!(e.code, 76);
    assert_eq!(e.file, None);
}

#[test]
fn error_text_without_file() {
    let e = XmlError::from_parts(1, 76, Some("Opening and ending tag mismatch".to_string()), 3, None, 4);
    assert_eq!(
        e.describe(),
        "libxml2 fatal (domain=1, code=76): Opening and ending tag mismatch"
    );
}

#[test]
fn error_text_with_file_and_negative_numbers() {
    let e = XmlError::from_parts(-2, 5, Some("bad".to_string()), 1, Some("doc.xml".to_string()), 12);
    assert_eq!(e.describe(), "libxml2 warning (domain=-2, code=5): bad at doc.xml:12");
}
