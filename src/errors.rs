//! Errors of the PO parser, the MO parser and the escaping functions.

use vstd::prelude::*;

verus! {

/// The origin of parsed text: a path, or content handed over directly.
#[derive(Debug, PartialEq)]
pub struct MaybeFilename {
    pub filename: String,
    pub filename_is_path: bool,
}

impl MaybeFilename {
    pub fn new(filename: &str, filename_is_path: bool) -> (r: Self)
        ensures
            r.filename@ == filename@,
            r.filename_is_path == filename_is_path,
    {
        MaybeFilename { filename: filename.to_owned(), filename_is_path }
    }
}

/// Errors of the MO parser.
#[derive(Debug, PartialEq)]
pub enum IOError {
    /// The content is shorter than the four bytes of the magic number.
    ErrorReadingMagicNumber {},
    /// The first four bytes are the magic number in neither byte order.
    IncorrectMagicNumber { magic_number_le: u32, magic_number_be: u32 },
    /// The major revision is neither 0 nor 1.
    UnsupportedMORevisionNumber { version: u32 },
    /// An offset or a length points outside the content; `context` names the
    /// step that failed.
    CorruptedMOData { context: String },
}

/// Errors of the PO parser.
#[derive(Debug, PartialEq)]
pub enum SyntaxError {
    /// A double quote inside a quoted string is not escaped.
    UnescapedDoubleQuoteFound { maybe_filename: MaybeFilename, line: usize, index: usize },
    /// A recognised problem, described by `message`.
    Custom { maybe_filename: MaybeFilename, line: usize, index: usize, message: String },
    /// A problem of the whole file, described by `message`.
    BasicCustom { maybe_filename: MaybeFilename, message: String },
    /// Any other syntax error.
    Generic { maybe_filename: MaybeFilename, line: usize, index: usize },
    /// The parser reached a state that it does not know.
    UnknownState { state: String },
}

/// Errors of the escaping functions.
#[derive(Debug, PartialEq)]
pub enum EscapingError {
    /// The text ends with a lone backslash.
    EscapeAtEndOfString { text: String },
    /// A backslash is followed by a character that no escape uses.
    InvalidEscapedCharacter { text: String, character: char },
}

} // verus!
