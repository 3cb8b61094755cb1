//! libxml2 error records.
//!
//! libxml2 keeps the last error it met in per-thread state. Reading that
//! state is the embedding program's work; this module holds the record it
//! becomes and how the record reads as text.

use vstd::prelude::*;

use crate::css::text::{i32_text, int_text};

verus! {

/// Severity level of a libxml2 error.
#[derive(Debug, Clone, Copy, PartialEq, Eq, Structural)]
pub enum ErrorLevel {
    None_,
    Warning,
    Error,
    Fatal,
}

/// The level that libxml2's numeric `xmlErrorLevel` stands for; a number
/// outside its four values counts as an error.
pub open spec fn level_of_raw(raw: u32) -> ErrorLevel {
    if raw == 0 {
        ErrorLevel::None_
    } else if raw == 1 {
        ErrorLevel::Warning
    } else if raw == 3 {
        ErrorLevel::Fatal
    } else {
        ErrorLevel::Error
    }
}

/// The lower-case name of a level.
pub open spec fn level_name(level: ErrorLevel) -> Seq<char> {
    match level {
        ErrorLevel::None_ => "none"@,
        ErrorLevel::Warning => "warning"@,
        ErrorLevel::Error => "error"@,
        ErrorLevel::Fatal => "fatal"@,
    }
}

impl ErrorLevel {
    /// The level of libxml2's numeric `xmlErrorLevel`.
    pub fn from_raw(raw: u32) -> (r: ErrorLevel)
        ensures
            r == level_of_raw(raw),
    {
        if raw == 0 {
            ErrorLevel::None_
        } else if raw == 1 {
            ErrorLevel::Warning
        } else if raw == 3 {
            ErrorLevel::Fatal
        } else {
            ErrorLevel::Error
        }
    }

    /// The level as text: `none`, `warning`, `error` or `fatal`.
    pub fn describe(&self) -> (r: String)
        ensures
            r@ == level_name(*self),
    {
        match self {
            ErrorLevel::None_ => String::from_str("none"),
            ErrorLevel::Warning => String::from_str("warning"),
            ErrorLevel::Error => String::from_str("error"),
            ErrorLevel::Fatal => String::from_str("fatal"),
        }
    }
}

/// A structured libxml2 error.
#[derive(Debug, Clone)]
pub struct XmlError {
    pub domain: i32,
    pub code: i32,
    pub message: String,
    pub level: ErrorLevel,
    pub file: Option<String>,
    pub line: i32,
}

/// The text of an error record:
/// `libxml2 <level> (domain=<domain>, code=<code>): <message>`, followed by
/// ` at <file>:<line>` when the record names a file.
pub open spec fn error_text(e: XmlError) -> Seq<char> {
    let head = "libxml2 "@ + level_name(e.level) + " (domain="@ + int_text(e.domain as int)
        + ", code="@ + int_text(e.code as int) + "): "@ + e.message@;
    match e.file {
        Some(f) => head + " at "@ + f@ + ":"@ + int_text(e.line as int),
        None => head,
    }
}

impl XmlError {
    /// Build the record from the fields of libxml2's `xmlError`: a missing
    /// message reads `unknown error`, and the numeric level is mapped by
    /// [`ErrorLevel::from_raw`].
    pub fn from_parts(
        domain: i32,
        code: i32,
        message: Option<String>,
        level: u32,
        file: Option<String>,
        line: i32,
    ) -> (r: XmlError)
        ensures
            r.domain == domain,
            r.code == code,
            r.message@ == (match message {
                Some(m) => m@,
                None => "unknown error"@,
            }),
            r.level == level_of_raw(level),
            r.file == file,
            r.line == line,
    {
        let message = match message {
            Some(m) => m,
            None => String::from_str("unknown error"),
        };
        XmlError { domain, code, message, level: ErrorLevel::from_raw(level), file, line }
    }

    /// The record as one line of text (see [`error_text`]).
    pub fn describe(&self) -> (r: String)
        ensures
            r@ == error_text(*self),
    {
        let mut s = String::from_str("libxml2 ");
        let level = self.level.describe();
        s.append(level.as_str());
        s.append(" (domain=");
        let domain = i32_text(self.domain);
        s.append(domain.as_str());
        s.append(", code=");
        let code = i32_text(self.code);
        s.append(code.as_str());
        s.append("): ");
        s.append(self.message.as_str());
        match &self.file {
            Some(f) => {
                s.append(" at ");
                s.append(f.as_str());
                s.append(":");
                let line = i32_text(self.line);
                s.append(line.as_str());
            },
            None => {},
        }
        s
    }
}

} // verus!
