//! Semantic versions and their text form.

use crate::text::{
    decimal_decode, decimal_decoding, decimal_encoding, is_ascii_text, join_text,
    lemma_ascii_is_utf8, lemma_decimal_encoding, lemma_decimal_encoding_len_u64,
    lemma_split_join, push_decimal, split_at_byte, split_text,
};
use vstd::prelude::*;
use vstd::string::*;

verus! {

/// A semantic version.
#[derive(Clone, Copy, Debug, PartialEq, Eq, Hash, Structural)]
pub struct Version {
    pub major: u64,
    pub minor: u64,
    pub patch: u64,
}

/// Why a text is no version.
#[derive(Clone, Copy, Debug, PartialEq, Eq, Structural)]
pub enum VersionParseError {
    /// The text holds fewer than two dots.
    IncorrectStructure,
    /// One of the three parts is no decimal number of 64 bits.
    InvalidNumber,
}

/// The text form of a version: the three numbers in decimal, with a dot
/// between them.
pub open spec fn version_text(version: Version) -> Seq<u8> {
    join_text(
        decimal_encoding(version.major as nat),
        46,
        join_text(
            decimal_encoding(version.minor as nat),
            46,
            decimal_encoding(version.patch as nat),
        ),
    )
}

/// The version that a text stands for, or why it stands for none.
pub open spec fn version_parsing(text: Seq<u8>) -> Result<Version, VersionParseError> {
    match split_text(text, 46) {
        None => Err(VersionParseError::IncorrectStructure),
        Some((major, rest)) => match split_text(rest, 46) {
            None => Err(VersionParseError::IncorrectStructure),
            Some((minor, patch)) => match (
                decimal_decoding(major),
                decimal_decoding(minor),
                decimal_decoding(patch),
            ) {
                (Some(major), Some(minor), Some(patch)) => Ok(Version { major, minor, patch }),
                _ => Err(VersionParseError::InvalidNumber),
            },
        },
    }
}

/// Parsing the text form of a version gives the version back.
pub proof fn lemma_version_text_roundtrip(version: Version)
    ensures
        version_parsing(version_text(version)) == Ok::<Version, VersionParseError>(version),
        is_ascii_text(version_text(version)),
        vstd::utf8::valid_utf8(version_text(version)),
        version_text(version).len() <= 62,
{
    let major = decimal_encoding(version.major as nat);
    let minor = decimal_encoding(version.minor as nat);
    let patch = decimal_encoding(version.patch as nat);
    lemma_decimal_encoding(version.major as nat);
    lemma_decimal_encoding(version.minor as nat);
    lemma_decimal_encoding(version.patch as nat);
    lemma_decimal_encoding_len_u64(version.major);
    lemma_decimal_encoding_len_u64(version.minor);
    lemma_decimal_encoding_len_u64(version.patch);
    let rest = join_text(minor, 46, patch);
    lemma_split_join(major, 46, rest);
    lemma_split_join(minor, 46, patch);
    let text = version_text(version);
    assert forall|i: int| 0 <= i < text.len() implies #[trigger] text[i] < 128 by {
        if i < major.len() {
            assert(text[i] == major[i]);
        } else if i > major.len() {
            let j = i - major.len() - 1;
            assert(text[i] == rest[j]);
            if j < minor.len() {
                assert(rest[j] == minor[j]);
            } else if j > minor.len() {
                assert(rest[j] == patch[j - minor.len() - 1]);
            }
        }
    }
    lemma_ascii_is_utf8(text);
}

impl Version {
    /// The text form of the version.
    pub fn text(&self) -> (text: Vec<u8>)
        ensures
            text@ == version_text(*self),
    {
        let mut text: Vec<u8> = Vec::new();
        push_decimal(&mut text, self.major);
        text.push(46);
        push_decimal(&mut text, self.minor);
        text.push(46);
        push_decimal(&mut text, self.patch);
        assert(text@ =~= version_text(*self));
        text
    }

    /// Reads the text form of a version.
    pub fn parse(text: &[u8]) -> (r: Result<Version, VersionParseError>)
        ensures
            r == version_parsing(text@),
    {
        let (major, rest) = match split_at_byte(text, 46) {
            Some(parts) => parts,
            None => {
                return Err(VersionParseError::IncorrectStructure);
            },
        };
        let (minor, patch) = match split_at_byte(rest, 46) {
            Some(parts) => parts,
            None => {
                return Err(VersionParseError::IncorrectStructure);
            },
        };
        let major = decimal_decode(major);
        let minor = decimal_decode(minor);
        let patch = decimal_decode(patch);
        match (major, minor, patch) {
            (Some(major), Some(minor), Some(patch)) => Ok(Version { major, minor, patch }),
            _ => Err(VersionParseError::InvalidNumber),
        }
    }
}

impl Version {
    /// Reads the text form of a version from a string.
    pub fn from_str(text: &str) -> (r: Result<Version, VersionParseError>)
        ensures
            r == version_parsing(text.spec_bytes()),
    {
        Version::parse(text.as_bytes())
    }
}

} // verus!
