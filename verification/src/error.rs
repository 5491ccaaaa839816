//! What can go wrong in an import.
use crate::identity::UuidError;
use crate::path::FilePath;
use crate::text::{decimal, decimal_string, ParseIntError};
use vstd::prelude::*;

verus! {

broadcast use vstd::string::group_string_axioms;

/// The number under which an upload is known.
pub type Token = usize;

/// How an uploaded file differs from what its metadata announces.
#[derive(Debug, Clone, Copy, PartialEq, Eq, Structural)]
pub enum Corruption {
    /// The checksum of the uploaded bytes, then the announced one.
    Crc32(u32, u32),
    /// The length of the uploaded file, then the announced one.
    Length(u64, u64),
}

/// An error of an import. `E` is the error type of the file system and the storage engine.
#[derive(Debug, PartialEq, Eq)]
pub enum Error<E> {
    /// An upload with this token is under way.
    TokenExists(Token),
    /// No upload has this token.
    TokenNotFound(Token),
    /// There is a file at the path already.
    FileExists(FilePath),
    /// The file at the path is not what its metadata announces.
    FileCorrupted(FilePath, Corruption),
    /// The path is not one of an imported file.
    InvalidSSTPath(FilePath),
    /// Not an identifier.
    Uuid(UuidError),
    /// Not a number.
    ParseInt(ParseIntError),
    /// An error of the file system or of the storage engine.
    Io(E),
}

/// What `Corruption::reason` says.
pub open spec fn corruption_text(c: Corruption) -> Seq<char> {
    let (label, found, expect) = match c {
        Corruption::Crc32(found, expect) => ("crc32 "@, found as nat, expect as nat),
        Corruption::Length(found, expect) => ("length "@, found as nat, expect as nat),
    };
    label + decimal(found) + ", expect "@ + decimal(expect)
}

impl Corruption {
    /// The difference in words: what was found, and what was expected.
    pub fn reason(&self) -> (r: String)
        ensures
            r@ == corruption_text(*self),
    {
        let (label, found, expect): (&str, u64, u64) = match self {
            Corruption::Crc32(found, expect) => ("crc32 ", *found as u64, *expect as u64),
            Corruption::Length(found, expect) => ("length ", *found, *expect),
        };
        let mut text = String::from_str(label);
        text.append(decimal_string(found).as_str());
        text.append(", expect ");
        text.append(decimal_string(expect).as_str());
        text
    }
}

} // verus!
