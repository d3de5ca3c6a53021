use vstd::prelude::*;

use crate::encoding::BaseEncoding;

verus! {

/// What can go wrong while picking a title.
#[derive(Debug, PartialEq, Eq)]
pub enum Error {
    /// The document could not be read.
    Load { path: String, cause: String },
    /// The document asks for a password.
    Encrypted(String),
    /// A page has no content stream.
    NoContent,
    /// The content stream of a page could not be decoded into operators.
    ContentDecode(String),
    /// A font names a base encoding that is not one of the four supported ones.
    UnsupportedEncoding(BaseEncoding),
    /// A font has neither a Unicode map nor a simple encoding.
    MissingEncoding(String),
    /// Raw text bytes are neither UTF-16BE (after a byte-order mark) nor UTF-8.
    Utf16Decode,
}

} // verus!
