//! Algorithm-tagged digests and their text form.

use crate::text::{
    hex_decode, hex_decoding, is_name, lemma_ascii_is_utf8, lemma_tagged_hex, push_tagged_hex,
    same_bytes, split_at_byte, split_text, tagged_hex,
};
use vstd::prelude::*;
use vstd::slice::slice_to_vec;
use vstd::string::*;

verus! {

/// The hash algorithms of the registry.
#[derive(Clone, Copy, Debug, PartialEq, Eq, Hash, Structural)]
pub enum HashAlgorithm {
    SHA256,
}

/// Why a text is no hash.
#[derive(Clone, Copy, Debug, PartialEq, Eq, Structural)]
pub enum HashParseError {
    /// The text holds no colon.
    IncorrectStructure,
    /// The part before the colon names no known algorithm.
    UnsupportedAlgorithm,
    /// The part behind the colon is no lowercase hexadecimal text.
    InvalidHex,
    /// The digest has not the length that the algorithm produces.
    IncorrectLength,
}

/// A digest and the algorithm that produced it.
#[derive(Clone, Debug, PartialEq, Eq, Hash)]
pub struct Hash {
    pub algorithm: HashAlgorithm,
    pub bytes: Vec<u8>,
}

/// The mathematical value of a `Hash`.
pub ghost struct HashView {
    pub algorithm: HashAlgorithm,
    pub bytes: Seq<u8>,
}

impl View for Hash {
    type V = HashView;

    open spec fn view(&self) -> HashView {
        HashView { algorithm: self.algorithm, bytes: self.bytes@ }
    }
}

/// What SHA-256 makes of `data`.
pub uninterp spec fn sha256_digest(data: Seq<u8>) -> Seq<u8>;

/// The SHA-256 digest of `data`.
///
/// Calls `Digest::digest` of `sha2::Sha256`, whose output is 32 bytes long.
#[verifier::external_body]
pub(crate) fn sha256(data: &[u8]) -> (out: Vec<u8>)
    ensures
        out@ == sha256_digest(data@),
        out@.len() == 32,
{
    <sha2::Sha256 as digest::Digest>::digest(data).to_vec()
}

/// The name of an algorithm in text.
pub open spec fn algorithm_name(algorithm: HashAlgorithm) -> Seq<u8> {
    match algorithm {
        HashAlgorithm::SHA256 => "sha256".spec_bytes(),
    }
}

/// The algorithm that a text names.
pub open spec fn algorithm_parsing(text: Seq<u8>) -> Option<HashAlgorithm> {
    if text == algorithm_name(HashAlgorithm::SHA256) {
        Some(HashAlgorithm::SHA256)
    } else {
        None
    }
}

/// The number of bytes in a digest of the algorithm.
pub open spec fn digest_len(algorithm: HashAlgorithm) -> nat {
    match algorithm {
        HashAlgorithm::SHA256 => 32,
    }
}

/// The text form of a hash: the algorithm's name, a colon, the digest in
/// lowercase hexadecimal.
pub open spec fn hash_text(hash: HashView) -> Seq<u8> {
    tagged_hex(algorithm_name(hash.algorithm), hash.bytes)
}

/// The hash that a text stands for, or why it stands for none.
pub open spec fn hash_parsing(text: Seq<u8>) -> Result<HashView, HashParseError> {
    match split_text(text, 58) {
        None => Err(HashParseError::IncorrectStructure),
        Some((name, hex)) => match algorithm_parsing(name) {
            None => Err(HashParseError::UnsupportedAlgorithm),
            Some(algorithm) => match hex_decoding(hex) {
                None => Err(HashParseError::InvalidHex),
                Some(bytes) => if bytes.len() == digest_len(algorithm) {
                    Ok(HashView { algorithm, bytes })
                } else {
                    Err(HashParseError::IncorrectLength)
                },
            },
        },
    }
}

impl HashView {
    /// The digest has the length that the algorithm produces.
    pub open spec fn wf(self) -> bool {
        self.bytes.len() == digest_len(self.algorithm)
    }
}

/// The name of an algorithm holds lowercase letters and digits only.
pub proof fn lemma_algorithm_name(algorithm: HashAlgorithm)
    ensures
        is_name(algorithm_name(algorithm)),
        algorithm_parsing(algorithm_name(algorithm)) == Some(algorithm),
        algorithm_name(algorithm).len() == 6,
        vstd::utf8::valid_utf8(algorithm_name(algorithm)),
{
    reveal_strlit("sha256");
    let name = "sha256";
    assert(is_ascii(name));
    is_ascii_spec_bytes(name);
    lemma_ascii_is_utf8(algorithm_name(algorithm));
}

/// Parsing the text form of a well-formed hash gives the hash back.
pub proof fn lemma_hash_text_roundtrip(hash: HashView)
    requires
        hash.wf(),
    ensures
        hash_parsing(hash_text(hash)) == Ok::<HashView, HashParseError>(hash),
        vstd::utf8::valid_utf8(hash_text(hash)),
        hash_text(hash).len() == 71,
{
    lemma_algorithm_name(hash.algorithm);
    lemma_tagged_hex(algorithm_name(hash.algorithm), hash.bytes);
}

impl HashAlgorithm {
    /// The name of the algorithm.
    pub fn name(&self) -> (name: &'static [u8])
        ensures
            name@ == algorithm_name(*self),
    {
        match self {
            HashAlgorithm::SHA256 => "sha256".as_bytes(),
        }
    }

    /// The algorithm that `text` names.
    pub fn parse(text: &[u8]) -> (r: Option<HashAlgorithm>)
        ensures
            r == algorithm_parsing(text@),
    {
        if same_bytes(text, HashAlgorithm::SHA256.name()) {
            Some(HashAlgorithm::SHA256)
        } else {
            None
        }
    }

    /// The algorithm that the string `text` names.
    pub fn from_str(text: &str) -> (r: Option<HashAlgorithm>)
        ensures
            r == algorithm_parsing(text.spec_bytes()),
    {
        HashAlgorithm::parse(text.as_bytes())
    }

    /// The digest of `data` under the algorithm.
    pub fn digest(&self, data: &[u8]) -> (hash: Hash)
        ensures
            hash@ == (HashView { algorithm: *self, bytes: sha256_digest(data@) }),
            hash@.wf(),
    {
        match self {
            HashAlgorithm::SHA256 => Hash { algorithm: HashAlgorithm::SHA256, bytes: sha256(data) },
        }
    }
}

impl Hash {
    /// The text form of the hash.
    pub fn text(&self) -> (text: Vec<u8>)
        ensures
            text@ == hash_text(self@),
    {
        let mut text: Vec<u8> = Vec::new();
        push_tagged_hex(&mut text, self.algorithm.name(), self.bytes.as_slice());
        text
    }

    /// Reads the text form of a hash.
    pub fn parse(text: &[u8]) -> (r: Result<Hash, HashParseError>)
        ensures
            match r {
                Ok(hash) => hash_parsing(text@) == Ok::<HashView, HashParseError>(hash@)
                    && hash@.wf(),
                Err(e) => hash_parsing(text@) == Err::<HashView, HashParseError>(e),
            },
    {
        let (name, hex) = match split_at_byte(text, 58) {
            Some(parts) => parts,
            None => {
                return Err(HashParseError::IncorrectStructure);
            },
        };
        let algorithm = match HashAlgorithm::parse(name) {
            Some(algorithm) => algorithm,
            None => {
                return Err(HashParseError::UnsupportedAlgorithm);
            },
        };
        let bytes = match hex_decode(hex) {
            Some(bytes) => bytes,
            None => {
                return Err(HashParseError::InvalidHex);
            },
        };
        if bytes.len() != 32 {
            return Err(HashParseError::IncorrectLength);
        }
        Ok(Hash { algorithm, bytes })
    }

    /// Reads the text form of a hash from a string.
    pub fn from_str(text: &str) -> (r: Result<Hash, HashParseError>)
        ensures
            match r {
                Ok(hash) => hash_parsing(text.spec_bytes()) == Ok::<HashView, HashParseError>(
                    hash@,
                ) && hash@.wf(),
                Err(e) => hash_parsing(text.spec_bytes()) == Err::<HashView, HashParseError>(e),
            },
    {
        Hash::parse(text.as_bytes())
    }

    /// A copy of the hash.
    pub fn copy(&self) -> (hash: Hash)
        ensures
            hash@ == self@,
    {
        Hash { algorithm: self.algorithm, bytes: slice_to_vec(self.bytes.as_slice()) }
    }

    /// Whether two hashes are the same.
    pub fn same(&self, other: &Hash) -> (same: bool)
        ensures
            same == (self@ == other@),
    {
        let same = self.algorithm == other.algorithm && same_bytes(
            self.bytes.as_slice(),
            other.bytes.as_slice(),
        );
        same
    }
}

} // verus!
