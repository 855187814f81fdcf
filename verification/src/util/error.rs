//! Error type of the library.

use vstd::prelude::*;
use vstd::string::*;
use crate::util::text::{decimal_digits, push_decimal};

verus! {

/// The standard library's I/O error, carried through unchanged.
#[verifier::external_type_specification]
#[verifier::external_body]
pub struct ExIoError(std::io::Error);

/// The standard library's UTF-8 conversion error, carried through unchanged.
#[verifier::external_type_specification]
#[verifier::external_body]
pub struct ExFromUtf8Error(std::string::FromUtf8Error);

/// The standard library's owned path, carried through unchanged.
#[verifier::external_type_specification]
#[verifier::external_body]
pub struct ExPathBuf(std::path::PathBuf);

/// Main error type for Alembic operations.
#[derive(Debug)]
pub enum Error {
    /// File does not exist or cannot be accessed
    FileNotFound(std::path::PathBuf),
    /// Invalid magic bytes at start of file
    InvalidMagic,
    /// Unsupported file format version
    UnsupportedVersion(u16),
    /// File is truncated or corrupted
    UnexpectedEof(u64),
    /// Invalid data structure in file
    InvalidStructure(String),
    /// Property not found by name
    PropertyNotFound(String),
    /// Object not found by name or path
    ObjectNotFound(String),
    /// Type mismatch when reading data
    TypeMismatch { expected: String, actual: String },
    /// Sample index out of bounds
    SampleOutOfBounds { index: usize, count: usize },
    /// Child index out of bounds
    ChildOutOfBounds { index: usize, count: usize },
    /// Invalid metadata format
    InvalidMetadata(String),
    /// Schema mismatch
    SchemaMismatch { expected: String, actual: String },
    /// Write operation failed
    WriteFailed(String),
    /// Archive is not writable (opened read-only)
    ReadOnly,
    /// Archive is frozen (finalized)
    Frozen,
    /// Memory mapping failed
    MmapFailed(String),
    /// I/O error
    Io(std::io::Error),
    /// UTF-8 conversion error
    Utf8(std::string::FromUtf8Error),
    /// Generic error with message
    Other(String),
}

impl Error {
    /// Create an "other" error from a message.
    pub fn other(msg: &str) -> (r: Self)
        ensures
            r matches Error::Other(m) && m@ == msg@,
    {
        Error::Other(msg.to_owned())
    }

    /// Create an invalid structure error.
    pub fn invalid(msg: &str) -> (r: Self)
        ensures
            r matches Error::InvalidStructure(m) && m@ == msg@,
    {
        Error::InvalidStructure(msg.to_owned())
    }
}

/// The text of an I/O error (its `Display` form).
///
/// Trusted: formats `std::io::Error` with `Display`; what the text holds
/// depends on the error's kind and source and is not described.
#[verifier::external_body]
fn io_error_text(e: &std::io::Error) -> (r: String) {
    format!("{}", e)
}

/// The text of a UTF-8 conversion error (its `Display` form).
///
/// Trusted: formats `std::string::FromUtf8Error` with `Display`; the text
/// is not described.
#[verifier::external_body]
fn utf8_error_text(e: &std::string::FromUtf8Error) -> (r: String) {
    format!("{}", e)
}

/// The text of a path, as `Path::display` shows it.
///
/// Trusted: formats `std::path::PathBuf` through `display()`; the text is
/// not described.
#[verifier::external_body]
fn path_text(p: &std::path::PathBuf) -> (r: String) {
    format!("{}", p.display())
}

fn joined(prefix: &str, text: &str) -> (r: String)
    ensures
        r@ == prefix@ + text@,
{
    let mut m = prefix.to_owned();
    m.append(text);
    m
}

fn joined_number(prefix: &str, n: u64, suffix: &str) -> (r: String)
    ensures
        r@ == prefix@ + decimal_digits(n as nat) + suffix@,
{
    let mut m = prefix.to_owned();
    push_decimal(&mut m, n);
    m.append(suffix);
    m
}

fn pair_text(prefix: &str, a: &str, middle: &str, b: &str, suffix: &str) -> (r: String)
    ensures
        r@ == prefix@ + a@ + middle@ + b@ + suffix@,
{
    let mut m = prefix.to_owned();
    m.append(a);
    m.append(middle);
    m.append(b);
    m.append(suffix);
    m
}

fn bounds_text(prefix: &str, index: usize, count: usize) -> (r: String)
    ensures
        r@ == prefix@ + decimal_digits(index as nat) + " out of bounds (count: "@ + decimal_digits(count as nat) + ")"@,
{
    let mut m = prefix.to_owned();
    push_decimal(&mut m, index as u64);
    m.append(" out of bounds (count: ");
    push_decimal(&mut m, count as u64);
    m.append(")");
    m
}

/// The message of an error whose text is all the library's own: every
/// variant but those carrying a path, an I/O error or a UTF-8 error.
pub open spec fn error_message(e: Error) -> Seq<char> {
    match e {
        Error::InvalidMagic => "Invalid Alembic file: expected Ogawa magic bytes"@,
        Error::UnsupportedVersion(v) => "Unsupported Alembic version: "@ + decimal_digits(v as nat),
        Error::UnexpectedEof(p) => "Unexpected end of file at position "@ + decimal_digits(p as nat),
        Error::InvalidStructure(m) => "Invalid file structure: "@ + m@,
        Error::PropertyNotFound(m) => "Property not found: "@ + m@,
        Error::ObjectNotFound(m) => "Object not found: "@ + m@,
        Error::TypeMismatch { expected, actual } => "Type mismatch: expected "@ + expected@ + ", got "@ + actual@,
        Error::SampleOutOfBounds { index, count } => "Sample index "@ + decimal_digits(index as nat)
            + " out of bounds (count: "@ + decimal_digits(count as nat) + ")"@,
        Error::ChildOutOfBounds { index, count } => "Child index "@ + decimal_digits(index as nat)
            + " out of bounds (count: "@ + decimal_digits(count as nat) + ")"@,
        Error::InvalidMetadata(m) => "Invalid metadata: "@ + m@,
        Error::SchemaMismatch { expected, actual } => "Schema mismatch: expected "@ + expected@ + ", got "@
            + actual@,
        Error::WriteFailed(m) => "Write failed: "@ + m@,
        Error::ReadOnly => "Archive is read-only"@,
        Error::Frozen => "Archive is frozen and cannot be modified"@,
        Error::MmapFailed(m) => "Memory mapping failed: "@ + m@,
        Error::Other(m) => m@,
        Error::FileNotFound(_) => "File not found: "@,
        Error::Io(_) => "I/O error: "@,
        Error::Utf8(_) => "Invalid UTF-8: "@,
    }
}

impl Error {
    /// The error's message. For a path, an I/O error or a UTF-8 error the
    /// message is a fixed prefix followed by that value's own text.
    pub fn to_string(&self) -> (r: String)
        ensures
            !(*self is FileNotFound || *self is Io || *self is Utf8) ==> r@ == error_message(*self),
            (*self is FileNotFound || *self is Io || *self is Utf8) ==> exists|t: Seq<char>|
                r@ == error_message(*self) + t,
    {
        proof {
            reveal_strlit("Invalid Alembic file: expected Ogawa magic bytes");
            reveal_strlit("Unsupported Alembic version: ");
            reveal_strlit("Unexpected end of file at position ");
            reveal_strlit("Invalid file structure: ");
            reveal_strlit("Property not found: ");
            reveal_strlit("Object not found: ");
            reveal_strlit("Type mismatch: expected ");
            reveal_strlit(", got ");
            reveal_strlit("Sample index ");
            reveal_strlit("Child index ");
            reveal_strlit(" out of bounds (count: ");
            reveal_strlit(")");
            reveal_strlit("Invalid metadata: ");
            reveal_strlit("Schema mismatch: expected ");
            reveal_strlit("Write failed: ");
            reveal_strlit("Archive is read-only");
            reveal_strlit("Archive is frozen and cannot be modified");
            reveal_strlit("Memory mapping failed: ");
            reveal_strlit("File not found: ");
            reveal_strlit("I/O error: ");
            reveal_strlit("Invalid UTF-8: ");
            reveal_strlit("");
        }
        match self {
            Error::InvalidMagic => "Invalid Alembic file: expected Ogawa magic bytes".to_owned(),
            Error::UnsupportedVersion(v) => {
                let r = joined_number("Unsupported Alembic version: ", *v as u64, "");
                assert(r@ =~= error_message(*self));
                r
            },
            Error::UnexpectedEof(p) => {
                let r = joined_number("Unexpected end of file at position ", *p, "");
                assert(r@ =~= error_message(*self));
                r
            },
            Error::InvalidStructure(m) => joined("Invalid file structure: ", m.as_str()),
            Error::PropertyNotFound(m) => joined("Property not found: ", m.as_str()),
            Error::ObjectNotFound(m) => joined("Object not found: ", m.as_str()),
            Error::TypeMismatch { expected, actual } => {
                let r = pair_text("Type mismatch: expected ", expected.as_str(), ", got ", actual.as_str(), "");
                assert(r@ =~= error_message(*self));
                r
            },
            Error::SampleOutOfBounds { index, count } => bounds_text("Sample index ", *index, *count),
            Error::ChildOutOfBounds { index, count } => bounds_text("Child index ", *index, *count),
            Error::InvalidMetadata(m) => joined("Invalid metadata: ", m.as_str()),
            Error::SchemaMismatch { expected, actual } => {
                let r = pair_text("Schema mismatch: expected ", expected.as_str(), ", got ", actual.as_str(), "");
                assert(r@ =~= error_message(*self));
                r
            },
            Error::WriteFailed(m) => joined("Write failed: ", m.as_str()),
            Error::ReadOnly => "Archive is read-only".to_owned(),
            Error::Frozen => "Archive is frozen and cannot be modified".to_owned(),
            Error::MmapFailed(m) => joined("Memory mapping failed: ", m.as_str()),
            Error::Other(m) => m.clone(),
            Error::FileNotFound(p) => {
                let t = path_text(p);
                let r = joined("File not found: ", t.as_str());
                assert(r@ == error_message(*self) + t@);
                r
            },
            Error::Io(e) => {
                let t = io_error_text(e);
                let r = joined("I/O error: ", t.as_str());
                assert(r@ == error_message(*self) + t@);
                r
            },
            Error::Utf8(e) => {
                let t = utf8_error_text(e);
                let r = joined("Invalid UTF-8: ", t.as_str());
                assert(r@ == error_message(*self) + t@);
                r
            },
        }
    }
}

impl From<std::io::Error> for Error {
    fn from(e: std::io::Error) -> (r: Self) {
        Error::Io(e)
    }
}

impl vstd::std_specs::convert::FromSpecImpl<std::io::Error> for Error {
    open spec fn obeys_from_spec() -> bool {
        true
    }

    open spec fn from_spec(e: std::io::Error) -> Self {
        Error::Io(e)
    }
}

impl From<std::string::FromUtf8Error> for Error {
    fn from(e: std::string::FromUtf8Error) -> (r: Self) {
        Error::Utf8(e)
    }
}

impl vstd::std_specs::convert::FromSpecImpl<std::string::FromUtf8Error> for Error {
    open spec fn obeys_from_spec() -> bool {
        true
    }

    open spec fn from_spec(e: std::string::FromUtf8Error) -> Self {
        Error::Utf8(e)
    }
}

} // verus!
