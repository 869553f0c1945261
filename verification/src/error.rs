//! The errors of the library.
use vstd::prelude::*;

verus! {

#[verifier::external_type_specification]
#[verifier::external_body]
pub struct ExIoError(std::io::Error);

/// The errors that reading, merging and writing KML can end in.
#[derive(Debug)]
pub enum AppError {
    /// An input/output error
    IoError(std::io::Error),
    /// The XML tokenizer failed
    XmlError(quick_xml::Error),
    /// A file could not be read as KML
    ParseError(String),
    /// The request is not valid
    ValidationError(String),
}

/// The text of an I/O error (`<std::io::Error as Display>::fmt`). Nothing is
/// stated of it.
#[verifier::external_body]
fn io_error_text(e: &std::io::Error) -> String {
    e.to_string()
}

/// The text of a quick-xml error (`<quick_xml::Error as Display>::fmt`).
/// Nothing is stated of it.
#[verifier::external_body]
fn xml_error_text(e: &quick_xml::Error) -> String {
    e.to_string()
}

/// The prefix with which the message of each kind of error starts.
pub open spec fn message_prefix(e: AppError) -> Seq<char> {
    match e {
        AppError::IoError(_) => "I/O error: "@,
        AppError::XmlError(_) => "XML parsing error: "@,
        AppError::ParseError(_) => "Parse error: "@,
        AppError::ValidationError(_) => "Validation error: "@,
    }
}

/// `s` is a message of the error: the prefix of its kind, then the detail,
/// which for a parse or validation error is the message it carries.
pub open spec fn is_message_of(e: AppError, s: Seq<char>) -> bool {
    &&& s.len() >= message_prefix(e).len()
    &&& s.subrange(0, message_prefix(e).len() as int) == message_prefix(e)
    &&& e matches AppError::ParseError(m) ==> s == message_prefix(e) + m@
    &&& e matches AppError::ValidationError(m) ==> s == message_prefix(e) + m@
}

impl AppError {
    /// The message of the error: a prefix that names its kind, then the
    /// detail (the text of the underlying error, or the message it carries).
    pub fn message(&self) -> (s: String)
        ensures
            is_message_of(*self, s@),
    {
        let (mut s, detail) = match self {
            AppError::IoError(e) => (String::from_str("I/O error: "), io_error_text(e)),
            AppError::XmlError(e) => (String::from_str("XML parsing error: "), xml_error_text(e)),
            AppError::ParseError(m) => (String::from_str("Parse error: "), m.clone()),
            AppError::ValidationError(m) => (String::from_str("Validation error: "), m.clone()),
        };
        let ghost prefix = s@;
        s.append(detail.as_str());
        assert(s@.subrange(0, prefix.len() as int) =~= prefix);
        s
    }

    /// The HTTP status that answers the error: 400 (bad request) for a
    /// request that is not valid or a file that is not KML, 500 otherwise.
    pub fn status_code(&self) -> (c: u16)
        ensures
            c == (if self is ValidationError || self is ParseError { 400u16 } else { 500u16 }),
    {
        match self {
            AppError::ValidationError(_) => 400,
            AppError::ParseError(_) => 400,
            _ => 500,
        }
    }
}

impl From<std::io::Error> for AppError {
    fn from(err: std::io::Error) -> (r: Self) {
        AppError::IoError(err)
    }
}

impl vstd::std_specs::convert::FromSpecImpl<std::io::Error> for AppError {
    open spec fn obeys_from_spec() -> bool {
        true
    }

    open spec fn from_spec(err: std::io::Error) -> AppError {
        AppError::IoError(err)
    }
}

impl From<quick_xml::Error> for AppError {
    fn from(err: quick_xml::Error) -> (r: Self) {
        AppError::XmlError(err)
    }
}

impl vstd::std_specs::convert::FromSpecImpl<quick_xml::Error> for AppError {
    open spec fn obeys_from_spec() -> bool {
        true
    }

    open spec fn from_spec(err: quick_xml::Error) -> AppError {
        AppError::XmlError(err)
    }
}

/// The result of the library's operations.
pub type AppResult<T> = Result<T, AppError>;

} // verus!
