//! Algorithm-tagged keys and signatures, their text forms, and the calls into
//! the P-256 ECDSA implementation.

use crate::hash::{sha256_digest, HashAlgorithm, HashView};
use crate::text::{
    hex_decode, hex_decoding, is_name, lemma_tagged_hex, push_tagged_hex, same_bytes, split_at_byte,
    split_text, tagged_hex,
};
use vstd::prelude::*;
use vstd::slice::slice_to_vec;
use vstd::string::*;

verus! {

/// The error that the signers and verifiers of the `signature` crate report.
#[verifier::external_type_specification]
#[verifier::external_body]
pub struct ExSignatureError(signature::Error);

/// The signature algorithms of the registry.
#[derive(Clone, Copy, Debug, PartialEq, Eq, Hash, Structural)]
pub enum SignatureAlgorithm {
    EcdsaP256,
}

/// Why a text is no public key.
#[derive(Clone, Copy, Debug, PartialEq, Eq, Structural)]
pub enum PublicKeyParseError {
    /// The text holds no colon.
    IncorrectStructure,
    /// The part before the colon names no known algorithm.
    UnsupportedAlgorithm,
    /// The part behind the colon is no lowercase hexadecimal text.
    InvalidHex,
    /// The bytes have not the shape of an encoded curve point.
    InvalidKey,
}

/// Why a text is no signature.
#[derive(Clone, Copy, Debug, PartialEq, Eq, Structural)]
pub enum SignatureParseError {
    /// The text holds no colon.
    IncorrectStructure,
    /// The part before the colon names no known algorithm.
    UnsupportedAlgorithm,
    /// The part behind the colon is no lowercase hexadecimal text.
    InvalidHex,
    /// The signature has not the length that the algorithm produces.
    IncorrectLength,
}

/// Why a private key could not be used.
#[derive(Clone, Copy, Debug, PartialEq, Eq, Structural)]
pub enum SignatureError {
    /// The bytes are no secret scalar of the curve.
    InvalidKey,
    /// The signer refused the message.
    SigningFailed,
}

/// A public key: a curve point in its SEC1 encoding.
#[derive(Clone, Debug, PartialEq, Eq, Hash)]
pub struct PublicKey {
    pub algorithm: SignatureAlgorithm,
    pub bytes: Vec<u8>,
}

/// A signature: the two scalars `r` and `s`, 32 bytes each.
#[derive(Clone, Debug, PartialEq, Eq, Hash)]
pub struct Signature {
    pub algorithm: SignatureAlgorithm,
    pub bytes: Vec<u8>,
}

/// A private key together with the public key that belongs to it.
pub struct PrivateKey {
    secret: Vec<u8>,
    public: PublicKey,
}

/// The mathematical value of a `PublicKey`.
pub ghost struct PublicKeyView {
    pub algorithm: SignatureAlgorithm,
    pub bytes: Seq<u8>,
}

/// The mathematical value of a `Signature`.
pub ghost struct SignatureView {
    pub algorithm: SignatureAlgorithm,
    pub bytes: Seq<u8>,
}

impl View for PublicKey {
    type V = PublicKeyView;

    open spec fn view(&self) -> PublicKeyView {
        PublicKeyView { algorithm: self.algorithm, bytes: self.bytes@ }
    }
}

impl View for Signature {
    type V = SignatureView;

    open spec fn view(&self) -> SignatureView {
        SignatureView { algorithm: self.algorithm, bytes: self.bytes@ }
    }
}

/// The compressed SEC1 encoding of the public key that belongs to the secret
/// scalar `secret`; `None` where `secret` is no scalar of the curve.
pub uninterp spec fn p256_public_key(secret: Seq<u8>) -> Option<Seq<u8>>;

/// The deterministic ECDSA signature of `message` under `secret`, as `r` and
/// `s` side by side; `None` where the signer fails.
pub uninterp spec fn p256_signature(secret: Seq<u8>, message: Seq<u8>) -> Option<Seq<u8>>;

/// Whether `signature` is a valid ECDSA signature of `message` under the
/// public key `public`.
pub uninterp spec fn p256_verifies(public: Seq<u8>, message: Seq<u8>, signature: Seq<u8>) -> bool;

/// The shape of a compressed curve point: a byte 2 or 3, then 32 bytes.
pub open spec fn is_compressed_point(bytes: Seq<u8>) -> bool {
    bytes.len() == 33 && (bytes[0] == 2 || bytes[0] == 3)
}

/// The shape of an encoded curve point, compressed or not: a byte 4 and 64
/// bytes where it is not.
pub open spec fn is_encoded_point(bytes: Seq<u8>) -> bool {
    is_compressed_point(bytes) || (bytes.len() == 65 && bytes[0] == 4)
}

/// The public key of a secret scalar.
///
/// Reads the scalar with `SigningKey::from_slice` of `p256::ecdsa`, which
/// takes 32 bytes, or 24 to 31 with zeros before them, and refuses zero and
/// what is not below the order of the curve. Encodes its `verifying_key` with
/// `to_encoded_point(true)`: the compressed SEC1 form, 33 bytes that start
/// with 2 or 3.
#[verifier::external_body]
fn derive_public_key(secret: &[u8]) -> (r: Result<Vec<u8>, signature::Error>)
    ensures
        match r {
            Ok(public) => p256_public_key(secret@) == Some(public@) && is_compressed_point(
                public@,
            ),
            Err(_) => p256_public_key(secret@) is None,
        },
{
    let key = p256::ecdsa::SigningKey::from_slice(secret)?;
    Ok(key.verifying_key().to_encoded_point(true).as_bytes().to_vec())
}

/// Signs `message` with a secret scalar.
///
/// Reads the scalar with `SigningKey::from_slice` of `p256::ecdsa` and calls
/// `Signer::try_sign` on it, which hashes the message with SHA-256 and derives
/// the nonce from key and message alone. `Signature::to_bytes` gives the two
/// scalars, 64 bytes.
#[verifier::external_body]
fn sign_message(secret: &[u8], message: &[u8]) -> (r: Result<Vec<u8>, signature::Error>)
    ensures
        match r {
            Ok(bytes) => p256_signature(secret@, message@) == Some(bytes@) && bytes@.len() == 64,
            Err(_) => p256_signature(secret@, message@) is None,
        },
{
    let key = p256::ecdsa::SigningKey::from_slice(secret)?;
    let signed: p256::ecdsa::Signature = signature::Signer::try_sign(&key, message)?;
    Ok(signed.to_bytes().to_vec())
}

/// Checks a signature of `message` against an encoded public key.
///
/// Reads the key with `VerifyingKey::from_sec1_bytes` and the signature with
/// `Signature::from_slice` of `p256::ecdsa`, and calls `Verifier::verify`. A key
/// or a signature that cannot be read verifies nothing.
#[verifier::external_body]
fn verify_message(public: &[u8], message: &[u8], signed: &[u8]) -> (valid: bool)
    ensures
        valid == p256_verifies(public@, message@, signed@),
{
    let key = match p256::ecdsa::VerifyingKey::from_sec1_bytes(public) {
        Ok(key) => key,
        Err(_) => return false,
    };
    let signed = match p256::ecdsa::Signature::from_slice(signed) {
        Ok(signed) => signed,
        Err(_) => return false,
    };
    match signature::Verifier::verify(&key, message, &signed) {
        Ok(()) => true,
        Err(_) => false,
    }
}

/// The name of an algorithm in text.
pub open spec fn signature_algorithm_name(algorithm: SignatureAlgorithm) -> Seq<u8> {
    match algorithm {
        SignatureAlgorithm::EcdsaP256 => "ecdsa-p256".spec_bytes(),
    }
}

/// The algorithm that a text names.
pub open spec fn signature_algorithm_parsing(text: Seq<u8>) -> Option<SignatureAlgorithm> {
    if text == signature_algorithm_name(SignatureAlgorithm::EcdsaP256) {
        Some(SignatureAlgorithm::EcdsaP256)
    } else {
        None
    }
}

/// The text form of a public key: the algorithm's name, a colon, the encoded
/// point in lowercase hexadecimal.
pub open spec fn public_key_text(key: PublicKeyView) -> Seq<u8> {
    tagged_hex(signature_algorithm_name(key.algorithm), key.bytes)
}

/// The public key that a text stands for, or why it stands for none.
pub open spec fn public_key_parsing(text: Seq<u8>) -> Result<PublicKeyView, PublicKeyParseError> {
    match split_text(text, 58) {
        None => Err(PublicKeyParseError::IncorrectStructure),
        Some((name, hex)) => match signature_algorithm_parsing(name) {
            None => Err(PublicKeyParseError::UnsupportedAlgorithm),
            Some(algorithm) => match hex_decoding(hex) {
                None => Err(PublicKeyParseError::InvalidHex),
                Some(bytes) => if is_encoded_point(bytes) {
                    Ok(PublicKeyView { algorithm, bytes })
                } else {
                    Err(PublicKeyParseError::InvalidKey)
                },
            },
        },
    }
}

/// The text form of a signature: the algorithm's name, a colon, the two
/// scalars in lowercase hexadecimal.
pub open spec fn signature_text(signature: SignatureView) -> Seq<u8> {
    tagged_hex(signature_algorithm_name(signature.algorithm), signature.bytes)
}

/// The signature that a text stands for, or why it stands for none.
pub open spec fn signature_parsing(text: Seq<u8>) -> Result<SignatureView, SignatureParseError> {
    match split_text(text, 58) {
        None => Err(SignatureParseError::IncorrectStructure),
        Some((name, hex)) => match signature_algorithm_parsing(name) {
            None => Err(SignatureParseError::UnsupportedAlgorithm),
            Some(algorithm) => match hex_decoding(hex) {
                None => Err(SignatureParseError::InvalidHex),
                Some(bytes) => if bytes.len() == 64 {
                    Ok(SignatureView { algorithm, bytes })
                } else {
                    Err(SignatureParseError::IncorrectLength)
                },
            },
        },
    }
}

/// The digest that identifies a public key: the SHA-256 digest of its text
/// form.
pub open spec fn key_id(key: PublicKeyView) -> HashView {
    HashView { algorithm: HashAlgorithm::SHA256, bytes: sha256_digest(public_key_text(key)) }
}

impl PublicKeyView {
    /// The bytes have the shape of an encoded curve point.
    pub open spec fn wf(self) -> bool {
        is_encoded_point(self.bytes)
    }
}

impl SignatureView {
    /// The signature holds two scalars of 32 bytes.
    pub open spec fn wf(self) -> bool {
        self.bytes.len() == 64
    }
}

/// The name of an algorithm holds lowercase letters, digits and hyphens only.
pub proof fn lemma_signature_algorithm_name(algorithm: SignatureAlgorithm)
    ensures
        is_name(signature_algorithm_name(algorithm)),
        signature_algorithm_parsing(signature_algorithm_name(algorithm)) == Some(algorithm),
        signature_algorithm_name(algorithm).len() == 10,
{
    reveal_strlit("ecdsa-p256");
    let name = "ecdsa-p256";
    assert(is_ascii(name));
    is_ascii_spec_bytes(name);
}

/// Parsing the text form of a well-formed public key gives the key back.
pub proof fn lemma_public_key_text_roundtrip(key: PublicKeyView)
    requires
        key.wf(),
    ensures
        public_key_parsing(public_key_text(key)) == Ok::<PublicKeyView, PublicKeyParseError>(key),
        vstd::utf8::valid_utf8(public_key_text(key)),
        public_key_text(key).len() <= 141,
{
    lemma_signature_algorithm_name(key.algorithm);
    lemma_tagged_hex(signature_algorithm_name(key.algorithm), key.bytes);
}

/// Parsing the text form of a well-formed signature gives the signature back.
pub proof fn lemma_signature_text_roundtrip(signature: SignatureView)
    requires
        signature.wf(),
    ensures
        signature_parsing(signature_text(signature)) == Ok::<SignatureView, SignatureParseError>(
            signature,
        ),
        vstd::utf8::valid_utf8(signature_text(signature)),
        signature_text(signature).len() == 139,
{
    lemma_signature_algorithm_name(signature.algorithm);
    lemma_tagged_hex(signature_algorithm_name(signature.algorithm), signature.bytes);
}

impl SignatureAlgorithm {
    /// The name of the algorithm.
    pub fn name(&self) -> (name: &'static [u8])
        ensures
            name@ == signature_algorithm_name(*self),
    {
        match self {
            SignatureAlgorithm::EcdsaP256 => "ecdsa-p256".as_bytes(),
        }
    }

    /// The algorithm that `text` names.
    pub fn parse(text: &[u8]) -> (r: Option<SignatureAlgorithm>)
        ensures
            r == signature_algorithm_parsing(text@),
    {
        if same_bytes(text, SignatureAlgorithm::EcdsaP256.name()) {
            Some(SignatureAlgorithm::EcdsaP256)
        } else {
            None
        }
    }
}

impl PublicKey {
    /// The text form of the key.
    pub fn text(&self) -> (text: Vec<u8>)
        ensures
            text@ == public_key_text(self@),
    {
        let mut text: Vec<u8> = Vec::new();
        push_tagged_hex(&mut text, self.algorithm.name(), self.bytes.as_slice());
        text
    }

    /// Reads the text form of a public key.
    pub fn parse(text: &[u8]) -> (r: Result<PublicKey, PublicKeyParseError>)
        ensures
            match r {
                Ok(key) => public_key_parsing(text@) == Ok::<PublicKeyView, PublicKeyParseError>(
                    key@,
                ) && key@.wf(),
                Err(e) => public_key_parsing(text@) == Err::<PublicKeyView, PublicKeyParseError>(e),
            },
    {
        let (name, hex) = match split_at_byte(text, 58) {
            Some(parts) => parts,
            None => {
                return Err(PublicKeyParseError::IncorrectStructure);
            },
        };
        let algorithm = match SignatureAlgorithm::parse(name) {
            Some(algorithm) => algorithm,
            None => {
                return Err(PublicKeyParseError::UnsupportedAlgorithm);
            },
        };
        let bytes = match hex_decode(hex) {
            Some(bytes) => bytes,
            None => {
                return Err(PublicKeyParseError::InvalidHex);
            },
        };
        let compressed = bytes.len() == 33 && (bytes[0] == 2 || bytes[0] == 3);
        let plain = bytes.len() == 65 && bytes[0] == 4;
        if compressed || plain {
            Ok(PublicKey { algorithm, bytes })
        } else {
            Err(PublicKeyParseError::InvalidKey)
        }
    }

    /// Reads the text form of a public key from a string.
    pub fn from_str(text: &str) -> (r: Result<PublicKey, PublicKeyParseError>)
        ensures
            match r {
                Ok(key) => public_key_parsing(text.spec_bytes()) == Ok::<
                    PublicKeyView,
                    PublicKeyParseError,
                >(key@) && key@.wf(),
                Err(e) => public_key_parsing(text.spec_bytes()) == Err::<
                    PublicKeyView,
                    PublicKeyParseError,
                >(e),
            },
    {
        PublicKey::parse(text.as_bytes())
    }

    /// The digest that identifies the key.
    pub fn digest(&self) -> (id: crate::hash::Hash)
        ensures
            id@ == key_id(self@),
            id@.wf(),
    {
        let text = self.text();
        HashAlgorithm::SHA256.digest(text.as_slice())
    }

    /// Whether `signature` is a valid signature of `message` under this key.
    pub fn verify(&self, message: &[u8], signature: &Signature) -> (valid: bool)
        ensures
            valid == p256_verifies(self@.bytes, message@, signature@.bytes),
    {
        match (self.algorithm, signature.algorithm) {
            (SignatureAlgorithm::EcdsaP256, SignatureAlgorithm::EcdsaP256) => verify_message(
                self.bytes.as_slice(),
                message,
                signature.bytes.as_slice(),
            ),
        }
    }

    /// A copy of the key.
    pub fn copy(&self) -> (key: PublicKey)
        ensures
            key@ == self@,
    {
        PublicKey { algorithm: self.algorithm, bytes: slice_to_vec(self.bytes.as_slice()) }
    }
}

impl Signature {
    /// The text form of the signature.
    pub fn text(&self) -> (text: Vec<u8>)
        ensures
            text@ == signature_text(self@),
    {
        let mut text: Vec<u8> = Vec::new();
        push_tagged_hex(&mut text, self.algorithm.name(), self.bytes.as_slice());
        text
    }

    /// Reads the text form of a signature.
    pub fn parse(text: &[u8]) -> (r: Result<Signature, SignatureParseError>)
        ensures
            match r {
                Ok(signature) => signature_parsing(text@) == Ok::<
                    SignatureView,
                    SignatureParseError,
                >(signature@) && signature@.wf(),
                Err(e) => signature_parsing(text@) == Err::<SignatureView, SignatureParseError>(e),
            },
    {
        let (name, hex) = match split_at_byte(text, 58) {
            Some(parts) => parts,
            None => {
                return Err(SignatureParseError::IncorrectStructure);
            },
        };
        let algorithm = match SignatureAlgorithm::parse(name) {
            Some(algorithm) => algorithm,
            None => {
                return Err(SignatureParseError::UnsupportedAlgorithm);
            },
        };
        let bytes = match hex_decode(hex) {
            Some(bytes) => bytes,
            None => {
                return Err(SignatureParseError::InvalidHex);
            },
        };
        if bytes.len() != 64 {
            return Err(SignatureParseError::IncorrectLength);
        }
        Ok(Signature { algorithm, bytes })
    }
}

impl Signature {
    /// Reads the text form of a signature from a string.
    pub fn from_str(text: &str) -> (r: Result<Signature, SignatureParseError>)
        ensures
            match r {
                Ok(signature) => signature_parsing(text.spec_bytes()) == Ok::<
                    SignatureView,
                    SignatureParseError,
                >(signature@) && signature@.wf(),
                Err(e) => signature_parsing(text.spec_bytes()) == Err::<
                    SignatureView,
                    SignatureParseError,
                >(e),
            },
    {
        Signature::parse(text.as_bytes())
    }
}

impl PrivateKey {
    /// The secret scalar.
    pub closed spec fn secret(&self) -> Seq<u8> {
        self.secret@
    }

    /// The public key that is kept with the secret.
    pub closed spec fn public(&self) -> PublicKeyView {
        self.public@
    }

    #[verifier::type_invariant]
    spec fn inv(&self) -> bool {
        &&& self.public.algorithm == SignatureAlgorithm::EcdsaP256
        &&& p256_public_key(self.secret@) == Some(self.public.bytes@)
        &&& is_compressed_point(self.public.bytes@)
    }

    /// Makes a private key of a secret scalar: 32 bytes with the highest first,
    /// or 24 to 31 that count with zeros before them.
    pub fn from_bytes(secret: Vec<u8>) -> (r: Result<PrivateKey, SignatureError>)
        ensures
            match r {
                Ok(key) => key.secret() == secret@ && p256_public_key(secret@) == Some(
                    key.public().bytes,
                ) && key.public().algorithm == SignatureAlgorithm::EcdsaP256 && key.public().wf(),
                Err(e) => p256_public_key(secret@) is None && e == SignatureError::InvalidKey,
            },
    {
        match derive_public_key(secret.as_slice()) {
            Ok(bytes) => Ok(
                PrivateKey {
                    secret,
                    public: PublicKey { algorithm: SignatureAlgorithm::EcdsaP256, bytes },
                },
            ),
            Err(_) => Err(SignatureError::InvalidKey),
        }
    }

    /// The public key that belongs to this key.
    pub fn public_key(&self) -> (key: PublicKey)
        ensures
            key@ == self.public(),
            key@.wf(),
            key@.algorithm == SignatureAlgorithm::EcdsaP256,
            p256_public_key(self.secret()) == Some(key@.bytes),
    {
        proof {
            use_type_invariant(self);
        }
        self.public.copy()
    }

    /// Signs `message`.
    pub fn sign(&self, message: &[u8]) -> (r: Result<Signature, SignatureError>)
        ensures
            match r {
                Ok(signature) => p256_signature(self.secret(), message@) == Some(signature@.bytes)
                    && signature@.algorithm == SignatureAlgorithm::EcdsaP256 && signature@.wf(),
                Err(e) => p256_signature(self.secret(), message@) is None && e
                    == SignatureError::SigningFailed,
            },
    {
        match sign_message(self.secret.as_slice(), message) {
            Ok(bytes) => Ok(Signature { algorithm: SignatureAlgorithm::EcdsaP256, bytes }),
            Err(_) => Err(SignatureError::SigningFailed),
        }
    }
}

} // verus!
