//! The calls that leave this crate: Ed25519, BLAKE3, byte stuffing,
//! base 58, the random source and UTF-8 validation.
//!
//! Nothing here is proved. Each function states what the called library is
//! relied on to do, and the rest of the crate is verified against that.

use ed25519_dalek::Signer;
use vstd::prelude::*;
use vstd::utf8::{decode_utf8, valid_utf8};

verus! {

/// The public key that `ed25519_dalek` derives from a 32-byte secret.
pub uninterp spec fn ed25519_public_key(secret: Seq<u8>) -> Seq<u8>;

/// The signature that `ed25519_dalek` makes with a secret over a message.
pub uninterp spec fn ed25519_signature(secret: Seq<u8>, message: Seq<u8>) -> Seq<u8>;

/// Whether 32 bytes decompress to a point of the curve.
pub uninterp spec fn ed25519_is_point(key: Seq<u8>) -> bool;

/// Whether strict verification accepts a signature over a message under a
/// key given by its bytes.
pub uninterp spec fn ed25519_strict_valid(key: Seq<u8>, message: Seq<u8>, signature: Seq<u8>) -> bool;

/// The 32-byte BLAKE3 digest of an input.
pub uninterp spec fn blake3_digest(input: Seq<u8>) -> Seq<u8>;

/// The byte-stuffed form of a payload, without the zero that closes a frame.
pub uninterp spec fn cobs_encoding(payload: Seq<u8>) -> Seq<u8>;

/// The payload of a byte-stuffed frame, where it is one.
pub uninterp spec fn cobs_decoding(frame: Seq<u8>) -> Option<Seq<u8>>;

/// The base-58 text of a byte string, in the Bitcoin alphabet.
pub uninterp spec fn base58_text(bytes: Seq<u8>) -> Seq<char>;

/// The 32 bytes that a base-58 text decodes to, where it decodes to no more
/// than 32.
pub uninterp spec fn base58_array(text: Seq<u8>) -> Option<Seq<u8>>;

/// `SigningKey::verifying_key`: the public half of a secret. Key derivation is
/// a function of the secret alone, and a derived key is always a curve point.
#[verifier::external_body]
pub(crate) fn derive_public_key(secret: &[u8; 32]) -> (key: [u8; 32])
    ensures
        key@ == ed25519_public_key(secret@),
        ed25519_is_point(key@),
{
    ed25519_dalek::SigningKey::from_bytes(secret).verifying_key().to_bytes()
}

/// `Signer::sign` of `SigningKey`: Ed25519 signing draws no randomness, so
/// the signature is a function of secret and message.
#[verifier::external_body]
pub(crate) fn sign_message(secret: &[u8; 32], message: &[u8]) -> (signature: [u8; 64])
    ensures
        signature@ == ed25519_signature(secret@, message@),
{
    ed25519_dalek::SigningKey::from_bytes(secret).sign(message).to_bytes()
}

/// `VerifyingKey::from_bytes`: succeeds exactly on the encodings of curve
/// points.
#[verifier::external_body]
pub(crate) fn is_curve_point(key: &[u8; 32]) -> (ok: bool)
    ensures
        ok == ed25519_is_point(key@),
{
    ed25519_dalek::VerifyingKey::from_bytes(key).is_ok()
}

/// `VerifyingKey::verify_strict`: the verdict depends on key, message and
/// signature alone. Bytes that are no curve point are no key, and nothing
/// verifies under them.
#[verifier::external_body]
pub(crate) fn verify_strict(key: &[u8; 32], message: &[u8], signature: &[u8; 64]) -> (ok: bool)
    ensures
        ok == ed25519_strict_valid(key@, message@, signature@),
{
    match ed25519_dalek::VerifyingKey::from_bytes(key) {
        Ok(k) => k.verify_strict(message, &ed25519_dalek::Signature::from_bytes(signature)).is_ok(),
        Err(_) => false,
    }
}

/// `rand::random`: sixteen bytes from the thread's generator. Nothing is
/// known of them.
#[verifier::external_body]
pub(crate) fn random_nonce() -> (nonce: [u8; 16]) {
    rand::random::<[u8; 16]>()
}

/// `blake3::hash`: the digest is a function of the input.
#[verifier::external_body]
pub(crate) fn blake3_hash(input: &[u8]) -> (digest: [u8; 32])
    ensures
        digest@ == blake3_digest(input@),
{
    *blake3::hash(input).as_bytes()
}

/// `cobs::encode_vec`: the stuffed form depends on the payload alone. The
/// closing zero is not part of it.
#[verifier::external_body]
pub(crate) fn cobs_encode(payload: &[u8]) -> (stuffed: Vec<u8>)
    ensures
        stuffed@ == cobs_encoding(payload@),
{
    cobs::encode_vec(payload)
}

/// `cobs::decode_in_place`, on a copy of the frame: the decoded payload, or
/// nothing where the frame is malformed. Decoding stops at the first zero
/// byte, and depends on the frame's bytes alone.
#[verifier::external_body]
pub(crate) fn cobs_decode(frame: &[u8]) -> (payload: Option<Vec<u8>>)
    ensures
        match cobs_decoding(frame@) {
            Some(p) => payload.is_some() && payload.unwrap()@ == p,
            None => payload.is_none(),
        },
{
    let mut buf = frame.to_vec();
    match cobs::decode_in_place(&mut buf) {
        Ok(n) => {
            buf.truncate(n);
            Some(buf)
        },
        Err(_) => None,
    }
}

/// `bs58::encode` into a string: the text depends on the bytes alone.
#[verifier::external_body]
pub(crate) fn base58_encode(bytes: &[u8]) -> (text: String)
    ensures
        text@ == base58_text(bytes@),
{
    bs58::encode(bytes).into_string()
}

/// `bs58::decode` into an array of 32 bytes: the bytes, or nothing where the
/// text holds a character outside the alphabet or stands for more than 32
/// bytes. A text that stands for fewer gives them with zeros behind. The
/// outcome depends on the text alone.
#[verifier::external_body]
pub(crate) fn base58_decode(text: &[u8]) -> (bytes: Option<[u8; 32]>)
    ensures
        match base58_array(text@) {
            Some(b) => bytes.is_some() && bytes.unwrap()@ == b,
            None => bytes.is_none(),
        },
{
    bs58::decode(text).into_array_const::<32>().ok()
}

/// `String::from_utf8`: succeeds exactly on well-formed UTF-8, and the string
/// then holds the characters that the bytes encode.
#[verifier::external_body]
pub(crate) fn string_from_utf8(bytes: Vec<u8>) -> (text: Option<String>)
    ensures
        text.is_some() == valid_utf8(bytes@),
        text.is_some() ==> text.unwrap()@ == decode_utf8(bytes@),
{
    String::from_utf8(bytes).ok()
}

} // verus!
