//! The errors of this crate.

use vstd::prelude::*;
use vstd::string::*;
use crate::digits::{ascii, decimal, push_decimal};
use crate::text::{lossy_string, lossy_text, push_ascii};

verus! {

/// What can go wrong while an identifier is read or computed. Each variant
/// holds the text that was refused.
#[derive(Debug)]
pub enum SwhidError {
    /// The text has too few or too many fields, or an item has no `=`.
    InvalidFormat(String),
    /// The first field is not `swh`.
    InvalidScheme(String),
    /// The second field is not `1`.
    InvalidVersion(String),
    /// The third field is none of the five tags.
    InvalidObjectType(String),
    /// The fourth field is not forty lower-case hexadecimal digits.
    InvalidDigest(String),
    /// A qualifier's key is refused.
    InvalidQualifierKey(String),
    /// A qualifier's value is refused.
    InvalidQualifierValue { key: String, value: String },
    /// Something outside this crate failed; the message says what.
    Io(String),
}

/// A `SwhidError` with its texts as sequences of characters.
pub enum SwhidErrorView {
    InvalidFormat(Seq<char>),
    InvalidScheme(Seq<char>),
    InvalidVersion(Seq<char>),
    InvalidObjectType(Seq<char>),
    InvalidDigest(Seq<char>),
    InvalidQualifierKey(Seq<char>),
    InvalidQualifierValue { key: Seq<char>, value: Seq<char> },
    Io(Seq<char>),
}

impl View for SwhidError {
    type V = SwhidErrorView;

    open spec fn view(&self) -> SwhidErrorView {
        match self {
            SwhidError::InvalidFormat(s) => SwhidErrorView::InvalidFormat(s@),
            SwhidError::InvalidScheme(s) => SwhidErrorView::InvalidScheme(s@),
            SwhidError::InvalidVersion(s) => SwhidErrorView::InvalidVersion(s@),
            SwhidError::InvalidObjectType(s) => SwhidErrorView::InvalidObjectType(s@),
            SwhidError::InvalidDigest(s) => SwhidErrorView::InvalidDigest(s@),
            SwhidError::InvalidQualifierKey(s) => SwhidErrorView::InvalidQualifierKey(s@),
            SwhidError::InvalidQualifierValue { key, value } => SwhidErrorView::InvalidQualifierValue {
                key: key@,
                value: value@,
            },
            SwhidError::Io(s) => SwhidErrorView::Io(s@),
        }
    }
}

impl SwhidErrorView {
    /// The message of the error: what went wrong, then the text refused.
    pub open spec fn message(self) -> Seq<char> {
        match self {
            SwhidErrorView::InvalidFormat(s) => "invalid SWHID format: "@ + s,
            SwhidErrorView::InvalidScheme(s) => "invalid URI scheme (expected `swh`): "@ + s,
            SwhidErrorView::InvalidVersion(s) => "unsupported SWHID version: "@ + s,
            SwhidErrorView::InvalidObjectType(s) => "invalid object type: "@ + s,
            SwhidErrorView::InvalidDigest(s) => "invalid digest (expected 40 hex chars): "@ + s,
            SwhidErrorView::InvalidQualifierKey(s) => "invalid qualifier key: "@ + s,
            SwhidErrorView::InvalidQualifierValue { key, value } => "invalid qualifier value for `"@
                + key + "`: "@ + value,
            SwhidErrorView::Io(s) => "I/O error: "@ + s,
        }
    }
}

impl SwhidError {
    /// The message of the error.
    pub fn to_string(&self) -> (r: String)
        ensures
            r@ == self@.message(),
    {
        match self {
            SwhidError::InvalidFormat(s) => String::from_str("invalid SWHID format: ").concat(
                s.as_str(),
            ),
            SwhidError::InvalidScheme(s) => String::from_str(
                "invalid URI scheme (expected `swh`): ",
            ).concat(s.as_str()),
            SwhidError::InvalidVersion(s) => String::from_str("unsupported SWHID version: ").concat(
                s.as_str(),
            ),
            SwhidError::InvalidObjectType(s) => String::from_str("invalid object type: ").concat(
                s.as_str(),
            ),
            SwhidError::InvalidDigest(s) => String::from_str(
                "invalid digest (expected 40 hex chars): ",
            ).concat(s.as_str()),
            SwhidError::InvalidQualifierKey(s) => String::from_str("invalid qualifier key: ").concat(
                s.as_str(),
            ),
            SwhidError::InvalidQualifierValue { key, value } => String::from_str(
                "invalid qualifier value for `",
            ).concat(key.as_str()).concat("`: ").concat(value.as_str()),
            SwhidError::Io(s) => String::from_str("I/O error: ").concat(s.as_str()),
        }
    }
}

/// What can go wrong while a directory is built.
#[derive(Debug)]
pub enum DirectoryError {
    /// Two entries have this name.
    DuplicateEntryName(Vec<u8>),
    /// The name of an entry holds this byte, a NUL or a `/`.
    InvalidByteInName { byte: u8, name: Vec<u8> },
}

/// What can go wrong while a snapshot is built.
#[derive(Debug)]
pub enum SnapshotError {
    /// Two branches have this name.
    DuplicateBranchName(Vec<u8>),
    /// The name of a branch holds this byte, a NUL.
    InvalidByteInName { byte: u8, name: Vec<u8> },
}

/// The message for a name that two entries or branches have.
pub open spec fn duplicate_message(what: Seq<char>, name: Seq<u8>) -> Seq<char> {
    what + lossy_text(name)
}

/// The message for a name that holds a byte that it may not hold.
pub open spec fn invalid_byte_message(byte: u8, name: Seq<u8>) -> Seq<char> {
    "Invalid byte "@ + ascii(decimal(byte as nat)) + " in name: "@ + lossy_text(name)
}

/// The message for a name that holds a byte that it may not hold.
fn invalid_byte_text(byte: u8, name: &[u8]) -> (r: String)
    ensures
        r@ == invalid_byte_message(byte, name@),
{
    let mut digits: Vec<u8> = Vec::new();
    push_decimal(&mut digits, byte as u64);
    let mut r = String::from_str("Invalid byte ");
    push_ascii(&mut r, digits.as_slice());
    r.append(" in name: ");
    let shown = lossy_string(name);
    r.append(shown.as_str());
    r
}

impl DirectoryError {
    /// The message of the error, as a sequence of characters.
    pub open spec fn message(self) -> Seq<char> {
        match self {
            DirectoryError::DuplicateEntryName(name) => duplicate_message(
                "Duplicate entry name: "@,
                name@,
            ),
            DirectoryError::InvalidByteInName { byte, name } => invalid_byte_message(byte, name@),
        }
    }

    /// The message of the error. A name that is not text is shown as far as
    /// it is.
    pub fn to_string(&self) -> (r: String)
        ensures
            r@ == self.message(),
    {
        match self {
            DirectoryError::DuplicateEntryName(name) => {
                let shown = lossy_string(name.as_slice());
                String::from_str("Duplicate entry name: ").concat(shown.as_str())
            },
            DirectoryError::InvalidByteInName { byte, name } => invalid_byte_text(
                *byte,
                name.as_slice(),
            ),
        }
    }
}

impl SnapshotError {
    /// The message of the error, as a sequence of characters.
    pub open spec fn message(self) -> Seq<char> {
        match self {
            SnapshotError::DuplicateBranchName(name) => duplicate_message(
                "Duplicate branch name: "@,
                name@,
            ),
            SnapshotError::InvalidByteInName { byte, name } => invalid_byte_message(byte, name@),
        }
    }

    /// The message of the error. A name that is not text is shown as far as
    /// it is.
    pub fn to_string(&self) -> (r: String)
        ensures
            r@ == self.message(),
    {
        match self {
            SnapshotError::DuplicateBranchName(name) => {
                let shown = lossy_string(name.as_slice());
                String::from_str("Duplicate branch name: ").concat(shown.as_str())
            },
            SnapshotError::InvalidByteInName { byte, name } => invalid_byte_text(
                *byte,
                name.as_slice(),
            ),
        }
    }
}

} // verus!
