//! Keys, and the base64 text in which they travel.

use crate::text::is_alphanumeric;
use base64::engine::general_purpose::STANDARD;
use base64::{DecodeError, Engine};
use vstd::prelude::*;

verus! {

/// The error type of `base64::Engine::decode`, carried as it is.
#[verifier::external_type_specification]
#[verifier::external_body]
pub struct ExDecodeError(DecodeError);

/// The bytes that a standard base64 text stands for; nothing where it is no such text.
pub uninterp spec fn base64_bytes(text: Seq<char>) -> Option<Seq<u8>>;

/// The standard base64 text of some bytes, with padding.
pub uninterp spec fn base64_text(bytes: Seq<u8>) -> Seq<char>;

/// The text holds nothing but letters and digits of ASCII, `+`, `/` and the padding `=`.
pub open spec fn in_base64(text: Seq<char>) -> bool {
    forall|i: int|
        0 <= i < text.len() ==> is_alphanumeric(#[trigger] text[i]) || text[i] == '+' || text[i]
            == '/' || text[i] == '='
}

/// Calls `Engine::decode` of the standard alphabet with padding. What comes back, and whether
/// anything does, depends on the text alone. A text with any other character is refused.
#[verifier::external_body]
pub(crate) fn decode_base64(text: &str) -> (r: Result<Vec<u8>, DecodeError>)
    ensures
        match r {
            Ok(bytes) => base64_bytes(text@) == Some(bytes@),
            Err(_) => base64_bytes(text@) is None,
        },
        r is Ok ==> in_base64(text@),
{
    STANDARD.decode(text)
}

/// Calls `Engine::encode` of the standard alphabet with padding. The text depends on the bytes
/// alone, is of that alphabet, has four characters for every three bytes begun, and decodes to the
/// bytes.
#[verifier::external_body]
pub(crate) fn encode_base64(bytes: &[u8]) -> (r: String)
    requires
        (bytes@.len() + 2) / 3 * 4 <= isize::MAX,
    ensures
        r@ == base64_text(bytes@),
        in_base64(r@),
        r@.len() == (bytes@.len() + 2) / 3 * 4,
        base64_bytes(r@) == Some(bytes@),
{
    STANDARD.encode(bytes)
}

/// A private key: thirty-two bytes, kept as they came.
#[derive(Clone, Copy)]
pub struct StaticSecret {
    pub bytes: [u8; 32],
}

/// A public key: thirty-two bytes, kept as they came.
#[derive(Debug, Clone, Copy)]
pub struct PublicKey {
    pub bytes: [u8; 32],
}

/// The x25519 public key that belongs to a private key.
pub uninterp spec fn x25519_public(secret: Seq<u8>) -> Seq<u8>;

/// Calls `PublicKey::from(&StaticSecret)` of the x25519 of boringtun, which multiplies the base
/// point by the clamped secret. The result depends on the secret's bytes alone.
#[verifier::external_body]
fn x25519_public_bytes(secret: &[u8; 32]) -> (r: [u8; 32])
    ensures
        r@ == x25519_public(secret@),
{
    let secret = boringtun::x25519::StaticSecret::from(*secret);
    boringtun::x25519::PublicKey::from(&secret).to_bytes()
}

/// Why a text holds no key.
#[derive(Debug, Clone, Copy, PartialEq, Eq, Structural)]
pub enum KeyError {
    /// It is no base64.
    Base64,
    /// It stands for another number of bytes than thirty-two.
    Length(usize),
}

/// The key that a base64 text holds.
pub open spec fn key_of_text(text: Seq<char>) -> Result<Seq<u8>, KeyError> {
    match base64_bytes(text) {
        None => Err(KeyError::Base64),
        Some(bytes) => if bytes.len() == 32 {
            Ok(bytes)
        } else {
            Err(KeyError::Length(bytes.len() as usize))
        },
    }
}

/// The thirty-two bytes as an array.
fn to_array(bytes: &[u8]) -> (r: [u8; 32])
    requires
        bytes@.len() == 32,
    ensures
        r@ == bytes@,
{
    let mut r: [u8; 32] = [0u8; 32];
    let mut i: usize = 0;
    while i < 32
        invariant
            i <= 32,
            bytes@.len() == 32,
            forall|j: int| 0 <= j < i ==> r@[j] == bytes@[j],
        decreases 32 - i,
    {
        r[i] = bytes[i];
        i += 1;
    }
    assert(r@ == bytes@);
    r
}

/// What decoding came to, as a key.
pub fn key_from_decoded(decoded: Option<Vec<u8>>) -> (r: Result<[u8; 32], KeyError>)
    ensures
        match decoded {
            None => r == Err::<[u8; 32], KeyError>(KeyError::Base64),
            Some(bytes) => if bytes@.len() == 32 {
                r is Ok && r->Ok_0@ == bytes@
            } else {
                r == Err::<[u8; 32], KeyError>(KeyError::Length(bytes@.len() as usize))
            },
        },
{
    match decoded {
        None => Err(KeyError::Base64),
        Some(bytes) => if bytes.len() == 32 {
            Ok(to_array(&bytes))
        } else {
            Err(KeyError::Length(bytes.len()))
        },
    }
}

/// Reads thirty-two bytes from base64 text.
pub fn key_from_text(text: &str) -> (r: Result<[u8; 32], KeyError>)
    ensures
        match r {
            Ok(bytes) => key_of_text(text@) == Ok::<Seq<u8>, KeyError>(bytes@),
            Err(e) => key_of_text(text@) == Err::<Seq<u8>, KeyError>(e),
        },
        r is Ok ==> in_base64(text@),
{
    match decode_base64(text) {
        Ok(bytes) => key_from_decoded(Some(bytes)),
        Err(_) => key_from_decoded(None),
    }
}

/// Writes thirty-two bytes as base64 text, which reads back as the same key.
pub fn key_to_text(bytes: &[u8; 32]) -> (r: String)
    ensures
        r@ == base64_text(bytes@),
        r@.len() == 44,
        in_base64(r@),
        key_of_text(r@) == Ok::<Seq<u8>, KeyError>(bytes@),
{
    encode_base64(bytes)
}

impl StaticSecret {
    /// The secret of some bytes.
    pub fn from_bytes(bytes: [u8; 32]) -> (r: StaticSecret)
        ensures
            r.bytes == bytes,
    {
        StaticSecret { bytes }
    }

    /// The public key of this secret.
    pub fn public_key(&self) -> (r: PublicKey)
        ensures
            r.bytes@ == x25519_public(self.bytes@),
    {
        PublicKey { bytes: x25519_public_bytes(&self.bytes) }
    }
}

impl PublicKey {
    /// Reads a public key from base64 text.
    pub fn from_text(text: &str) -> (r: Result<PublicKey, KeyError>)
        ensures
            match r {
                Ok(key) => key_of_text(text@) == Ok::<Seq<u8>, KeyError>(key.bytes@),
                Err(e) => key_of_text(text@) == Err::<Seq<u8>, KeyError>(e),
            },
    {
        match key_from_text(text) {
            Ok(bytes) => Ok(PublicKey { bytes }),
            Err(e) => Err(e),
        }
    }

    /// Writes the public key as base64 text.
    pub fn to_text(&self) -> (r: String)
        ensures
            r@ == base64_text(self.bytes@),
            key_of_text(r@) == Ok::<Seq<u8>, KeyError>(self.bytes@),
    {
        key_to_text(&self.bytes)
    }
}

} // verus!
