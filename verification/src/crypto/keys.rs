//! Signing keys and signatures.
//!
//! A signature is Ed25519 over the digest of a document in its domain, and is
//! checked strictly: weak keys and malleable signatures are refused.

use crate::crypto::hash::{digest, hash, Domain};
use crate::primitives::codec::{
    fault, parse_take, Canonical, CodecError, CodecFault, Decode, Encode, Parsed, Reader,
};
use crate::primitives::text;
use crate::primitives::wire;
use vstd::prelude::*;

verus! {

/// Whether 32 bytes are the compressed form of a point on the Ed25519 curve, as
/// `ed25519_dalek::VerifyingKey::from_bytes` decides it.
pub uninterp spec fn decompresses(key: Seq<u8>) -> bool;

/// The public key that belongs to a 32-byte seed, as
/// `ed25519_dalek::SigningKey::from_bytes` derives it.
pub uninterp spec fn verifying_key_of(seed: Seq<u8>) -> [u8; 32];

/// The signature that a seed's key makes on a message, as
/// `ed25519_dalek::SigningKey::sign` makes it; Ed25519 signatures are deterministic.
pub uninterp spec fn signature_of(seed: Seq<u8>, message: Seq<u8>) -> [u8; 64];

/// Whether a signature on a message is accepted under a public key, as
/// `ed25519_dalek::VerifyingKey::verify_strict` decides it.
pub uninterp spec fn signature_accepted(
    key: Seq<u8>,
    message: Seq<u8>,
    signature: Seq<u8>,
) -> bool;

/// `ed25519_dalek::VerifyingKey::from_bytes`: whether it accepts the bytes.
#[verifier::external_body]
fn is_verifying_key(bytes: &[u8; 32]) -> (b: bool)
    ensures
        b == decompresses(bytes@),
{
    ed25519_dalek::VerifyingKey::from_bytes(bytes).is_ok()
}

/// `ed25519_dalek::SigningKey::from_bytes`, and the bytes of its public key: a
/// function of the seed, and always the compressed form of a point.
#[verifier::external_body]
fn derive_verifying_key(seed: &[u8; 32]) -> (key: [u8; 32])
    ensures
        key == verifying_key_of(seed@),
        decompresses(key@),
{
    ed25519_dalek::SigningKey::from_bytes(seed).verifying_key().to_bytes()
}

/// `ed25519_dalek::SigningKey::sign`: a function of the seed and the message. That
/// the signature is accepted under the seed's own key is left unsaid: strict
/// checking refuses one whose commitment is a point of small order, and nothing
/// rules such a message out.
#[verifier::external_body]
fn make_signature(seed: &[u8; 32], message: &[u8]) -> (signature: [u8; 64])
    ensures
        signature == signature_of(seed@, message@),
{
    let key = ed25519_dalek::SigningKey::from_bytes(seed);
    ed25519_dalek::Signer::sign(&key, message).to_bytes()
}

/// `ed25519_dalek::VerifyingKey::verify_strict`, under the key with the given bytes:
/// a function of the key, the message and the signature, and never true of bytes
/// that are no key.
#[verifier::external_body]
fn accepts_signature(key: &[u8; 32], message: &[u8], signature: &[u8; 64]) -> (b: bool)
    ensures
        b == signature_accepted(key@, message@, signature@),
        b ==> decompresses(key@),
{
    match ed25519_dalek::VerifyingKey::from_bytes(key) {
        Ok(k) => k.verify_strict(message, &ed25519_dalek::Signature::from_bytes(signature)).is_ok(),
        Err(_) => false,
    }
}

/// Why a key, a signature or an address was refused.
#[derive(Debug, Clone, Copy, PartialEq, Eq, Structural)]
pub enum CryptoError {
    /// A signature is not one by this key on this document.
    BadSignature,
    /// A text is not the bech32m form of an address of this chain.
    MalformedAddress,
}

impl DeepView for CryptoError {
    type V = CryptoError;

    open spec fn deep_view(&self) -> CryptoError {
        *self
    }
}

impl CryptoError {
    /// The sentence that describes this error.
    pub open spec fn text(self) -> Seq<char> {
        match self {
            CryptoError::BadSignature => "signature does not verify"@,
            CryptoError::MalformedAddress => "malformed address"@,
        }
    }

    /// The sentence that describes this error.
    pub fn to_string(&self) -> (s: String)
        ensures
            s@ == self.text(),
    {
        match self {
            CryptoError::BadSignature => String::from_str("signature does not verify"),
            CryptoError::MalformedAddress => String::from_str("malformed address"),
        }
    }
}

/// An Ed25519 public key.
#[derive(Debug, Clone, Copy, Eq, PartialOrd, Ord, Hash)]
pub struct PublicKey([u8; 32]);

impl View for PublicKey {
    type V = Seq<u8>;

    closed spec fn view(&self) -> Seq<u8> {
        self.0@
    }
}

impl DeepView for PublicKey {
    type V = Seq<u8>;

    open spec fn deep_view(&self) -> Seq<u8> {
        self@
    }
}

impl PartialEq for PublicKey {
    fn eq(&self, other: &Self) -> (r: bool) {
        text::same_bytes(&self.0, &other.0)
    }
}

impl vstd::std_specs::cmp::PartialEqSpecImpl for PublicKey {
    open spec fn obeys_eq_spec() -> bool {
        true
    }

    open spec fn eq_spec(&self, other: &Self) -> bool {
        self@ == other@
    }
}

/// What may stand as a public key: the compressed form of a curve point.
pub open spec fn valid_key(bytes: Seq<u8>) -> bool {
    bytes.len() == 32 && decompresses(bytes)
}

/// Whether a signature by the given key on a document in a domain is accepted.
pub open spec fn signed_by(
    key: Seq<u8>,
    domain: Domain,
    document: Seq<u8>,
    signature: Signature,
) -> bool {
    signature_accepted(key, digest(domain, document).0@, signature.0@)
}

impl PublicKey {
    /// Every public key is the compressed form of a curve point.
    #[verifier::type_invariant]
    pub open spec fn well_formed(self) -> bool {
        valid_key(self@)
    }

    /// The key with the given bytes, if they are the compressed form of a point.
    pub fn from_bytes(bytes: [u8; 32]) -> (key: Option<Self>)
        ensures
            match key {
                Some(k) => decompresses(bytes@) && k@ == bytes@,
                None => !decompresses(bytes@),
            },
    {
        if is_verifying_key(&bytes) {
            Some(PublicKey(bytes))
        } else {
            None
        }
    }

    /// The raw bytes.
    pub fn as_bytes(&self) -> (b: &[u8; 32])
        ensures
            b@ == self@,
    {
        &self.0
    }

    /// Check a signature on a document in its domain.
    pub fn verify(
        &self,
        domain: Domain,
        document: &[u8],
        signature: &Signature,
    ) -> (r: Result<(), CryptoError>)
        ensures
            r == if signed_by(self@, domain, document@, *signature) {
                Ok::<(), CryptoError>(())
            } else {
                Err(CryptoError::BadSignature)
            },
    {
        let doc = hash(domain, document);
        if accepts_signature(&self.0, &doc.0, &signature.0) {
            Ok(())
        } else {
            Err(CryptoError::BadSignature)
        }
    }
}

/// An Ed25519 signing key.
pub struct SecretKey([u8; 32]);

impl View for SecretKey {
    type V = Seq<u8>;

    closed spec fn view(&self) -> Seq<u8> {
        self.0@
    }
}

impl SecretKey {
    /// The key of a 32-byte seed.
    pub fn from_bytes(seed: &[u8; 32]) -> (key: Self)
        ensures
            key@ == seed@,
    {
        SecretKey(*seed)
    }

    /// The public half.
    pub fn public_key(&self) -> (key: PublicKey)
        ensures
            key@ == verifying_key_of(self@)@,
    {
        PublicKey(derive_verifying_key(&self.0))
    }

    /// Sign a document in its domain.
    pub fn sign(&self, domain: Domain, document: &[u8]) -> (signature: Signature)
        ensures
            signature.0 == signature_of(self@, digest(domain, document@).0@),
    {
        let doc = hash(domain, document);
        Signature(make_signature(&self.0, &doc.0))
    }
}

/// An Ed25519 signature.
#[derive(Debug, Clone, Copy, Eq, PartialOrd, Ord, Hash)]
pub struct Signature(pub [u8; 64]);

impl PartialEq for Signature {
    fn eq(&self, other: &Self) -> (r: bool) {
        let same = text::same_bytes(&self.0, &other.0);
        proof {
            if same {
                assert(self.0 =~= other.0);
            }
        }
        same
    }
}

impl vstd::std_specs::cmp::PartialEqSpecImpl for Signature {
    open spec fn obeys_eq_spec() -> bool {
        true
    }

    open spec fn eq_spec(&self, other: &Self) -> bool {
        *self == *other
    }
}

impl DeepView for Signature {
    type V = Signature;

    open spec fn deep_view(&self) -> Signature {
        *self
    }
}

impl Encode for PublicKey {
    open spec fn bytes_of(v: Seq<u8>) -> Seq<u8> {
        v
    }

    fn encode(&self, out: &mut Vec<u8>) {
        wire::push_bytes(out, &self.0);
    }
}

impl Decode for PublicKey {
    open spec fn parse(s: Seq<u8>) -> Parsed<Seq<u8>> {
        parse_take(32, s).and_then(
            |key: Seq<u8>, rest: Seq<u8>|
                if decompresses(key) {
                    Parsed { value: Ok(key), rest }
                } else {
                    fault(CodecFault::Invalid("malformed public key"@), rest)
                },
        )
    }

    fn decode(r: &mut Reader<'_>) -> (res: Result<Self, CodecError>) {
        let bytes = r.take_array::<32>()?;
        match PublicKey::from_bytes(bytes) {
            Some(key) => Ok(key),
            None => Err(CodecError::Invalid(String::from_str("malformed public key"))),
        }
    }
}

impl Canonical for PublicKey {
    open spec fn valid(v: Seq<u8>) -> bool {
        valid_key(v)
    }

    proof fn round_trip(v: Seq<u8>, tail: Seq<u8>) {
        wire::lemma_split_concat(v, tail);
    }

    proof fn one_encoding(s: Seq<u8>) {
        if 32 <= s.len() {
            assert(s =~= s.take(32) + s.skip(32));
        }
    }
}

/// The signature with the given bytes, of which there are 64.
pub open spec fn signature_of_bytes(bytes: Seq<u8>) -> Signature {
    Signature(wire::array_of::<64>(bytes))
}

impl Encode for Signature {
    open spec fn bytes_of(v: Signature) -> Seq<u8> {
        v.0@
    }

    fn encode(&self, out: &mut Vec<u8>) {
        wire::push_bytes(out, &self.0);
    }
}

impl Decode for Signature {
    open spec fn parse(s: Seq<u8>) -> Parsed<Signature> {
        parse_take(64, s).map(|bytes: Seq<u8>| signature_of_bytes(bytes))
    }

    fn decode(r: &mut Reader<'_>) -> (res: Result<Self, CodecError>) {
        let bytes = r.take_array::<64>()?;
        let signature = Signature(bytes);
        proof {
            wire::lemma_array_of::<64>(bytes@);
            assert(signature.0 =~= signature_of_bytes(bytes@).0);
        }
        Ok(signature)
    }
}

impl Canonical for Signature {
    open spec fn valid(v: Signature) -> bool {
        true
    }

    proof fn round_trip(v: Signature, tail: Seq<u8>) {
        wire::lemma_split_concat(v.0@, tail);
        wire::lemma_array_of::<64>(v.0@);
        assert(v.0 =~= signature_of_bytes(v.0@).0);
    }

    proof fn one_encoding(s: Seq<u8>) {
        if 64 <= s.len() {
            assert(s =~= s.take(64) + s.skip(64));
            wire::lemma_array_of::<64>(s.take(64));
        }
    }
}

} // verus!
