//! The ways in which indexing, completion and formatting fail.

use vstd::prelude::*;
use vstd::string::StringExecFns;

verus! {

/// What went wrong.
#[derive(Clone, Copy, Debug, PartialEq, Eq, Structural)]
pub enum Error {
    /// A ledger could not be read.
    IoError,
    /// A node spans bytes that are no text.
    Utf8Error,
    /// The parser does not accept the grammar.
    LanguageError,
    /// No index has been built yet.
    TrieEmpty,
    /// A file identifier does not name a file.
    UriToPathConversion,
    /// A node that is to be formatted lacks a part.
    UnexpectedFormat,
    /// A node that is to be indexed lacks a part, or there is no tree at all.
    InvalidState,
}

impl Error {
    /// The message of each error.
    pub open spec fn message_text(self) -> Seq<char> {
        match self {
            Error::IoError => "I/O error"@,
            Error::Utf8Error => "UTF8 conversion error"@,
            Error::LanguageError => "Language error"@,
            Error::TrieEmpty => "Trie is empty"@,
            Error::UriToPathConversion => "Cannot convert URI to file path"@,
            Error::UnexpectedFormat => "Unexpected format error"@,
            Error::InvalidState => "Invalid state error"@,
        }
    }

    /// The message to show for this error.
    pub fn message(&self) -> (text: String)
        ensures
            text@ == self.message_text(),
    {
        match self {
            Error::IoError => String::from_str("I/O error"),
            Error::Utf8Error => String::from_str("UTF8 conversion error"),
            Error::LanguageError => String::from_str("Language error"),
            Error::TrieEmpty => String::from_str("Trie is empty"),
            Error::UriToPathConversion => String::from_str("Cannot convert URI to file path"),
            Error::UnexpectedFormat => String::from_str("Unexpected format error"),
            Error::InvalidState => String::from_str("Invalid state error"),
        }
    }
}

} // verus!
