//! Keys, signatures and participant identifiers, held as their bytes.

use crate::primitives::{
    derive_public_key, ed25519_is_point, ed25519_public_key, ed25519_signature,
    ed25519_strict_valid, is_curve_point, sign_message, verify_strict,
};
use crate::wire::{bytes_decoding, take_array, take_bytes, WireError};
use vstd::prelude::*;

verus! {

/// The value that varies the signed material from one signing to the next.
pub type Nonce = [u8; 16];

/// The secret half of an identity.
#[derive(Clone, Copy)]
pub struct SigningKey {
    secret: [u8; 32],
}

/// The public half of an identity, as it travels on the wire.
#[derive(Clone, Copy, Debug, PartialEq, Eq, Hash)]
pub struct VerifyingKey {
    bytes: [u8; 32],
}

/// An Ed25519 signature.
#[derive(Clone, Copy, Debug, PartialEq, Eq)]
pub struct Signature {
    bytes: [u8; 64],
}

/// The durable identifier of a participant: the bytes of its public key.
#[derive(Clone, Copy, Debug, PartialEq, Eq, Hash)]
pub struct NodeId {
    bytes: [u8; 32],
}

impl View for SigningKey {
    type V = Seq<u8>;

    closed spec fn view(&self) -> Seq<u8> {
        self.secret@
    }
}

impl View for VerifyingKey {
    type V = Seq<u8>;

    closed spec fn view(&self) -> Seq<u8> {
        self.bytes@
    }
}

impl View for Signature {
    type V = Seq<u8>;

    closed spec fn view(&self) -> Seq<u8> {
        self.bytes@
    }
}

impl View for NodeId {
    type V = Seq<u8>;

    closed spec fn view(&self) -> Seq<u8> {
        self.bytes@
    }
}

impl SigningKey {
    pub fn from_bytes(secret: &[u8; 32]) -> (key: SigningKey)
        ensures
            key@ == secret@,
    {
        SigningKey { secret: *secret }
    }

    pub fn to_bytes(&self) -> (secret: [u8; 32])
        ensures
            secret@ == self@,
    {
        self.secret
    }

    /// The public half of this identity.
    pub fn verifying_key(&self) -> (key: VerifyingKey)
        ensures
            key@ == ed25519_public_key(self@),
            key@.len() == 32,
            ed25519_is_point(key@),
    {
        VerifyingKey { bytes: derive_public_key(&self.secret) }
    }

    /// Signs `message`.
    pub fn sign(&self, message: &[u8]) -> (signature: Signature)
        ensures
            signature@ == ed25519_signature(self@, message@),
            signature@.len() == 64,
    {
        Signature { bytes: sign_message(&self.secret, message) }
    }

}

impl VerifyingKey {
    #[verifier::type_invariant]
    spec fn on_the_curve(self) -> bool {
        ed25519_is_point(self.bytes@)
    }

    /// A key from its 32 bytes, where they are a point of the curve.
    pub fn from_bytes(bytes: &[u8; 32]) -> (key: Option<VerifyingKey>)
        ensures
            key.is_some() == ed25519_is_point(bytes@),
            key.is_some() ==> key.unwrap()@ == bytes@,
    {
        if is_curve_point(bytes) {
            Some(VerifyingKey { bytes: *bytes })
        } else {
            None
        }
    }

    /// The key's bytes. Every key is a point of the curve.
    pub fn to_bytes(&self) -> (bytes: [u8; 32])
        ensures
            bytes@ == self@,
            ed25519_is_point(self@),
    {
        proof {
            use_type_invariant(self);
        }
        self.bytes
    }

    /// Whether `signature` is a strictly valid signature of `message` under
    /// this key.
    pub fn verify_strict(&self, message: &[u8], signature: &Signature) -> (ok: bool)
        ensures
            ok == ed25519_strict_valid(self@, message@, signature@),
    {
        verify_strict(&self.bytes, message, &signature.bytes)
    }

}

impl Signature {
    pub fn from_bytes(bytes: &[u8; 64]) -> (signature: Signature)
        ensures
            signature@ == bytes@,
    {
        Signature { bytes: *bytes }
    }

    pub fn to_bytes(&self) -> (bytes: [u8; 64])
        ensures
            bytes@ == self@,
    {
        self.bytes
    }

}

impl NodeId {
    #[verifier::type_invariant]
    spec fn on_the_curve(self) -> bool {
        ed25519_is_point(self.bytes@)
    }

    /// The identifier of the holder of `key`.
    pub fn from_key(key: &VerifyingKey) -> (id: NodeId)
        ensures
            id@ == key@,
    {
        proof {
            use_type_invariant(key);
        }
        NodeId { bytes: key.bytes }
    }

    /// An identifier from its 32 bytes, where they are a public key.
    pub fn from_bytes(bytes: &[u8; 32]) -> (id: Option<NodeId>)
        ensures
            id.is_some() == ed25519_is_point(bytes@),
            id.is_some() ==> id.unwrap()@ == bytes@,
    {
        match VerifyingKey::from_bytes(bytes) {
            Some(key) => Some(NodeId::from_key(&key)),
            None => None,
        }
    }

    /// The identifier's bytes. Every identifier is a point of the curve.
    pub fn as_bytes(&self) -> (bytes: &[u8; 32])
        ensures
            bytes@ == self@,
            ed25519_is_point(self@),
    {
        proof {
            use_type_invariant(self);
        }
        &self.bytes
    }

    /// The hue, in degrees, under which this participant is shown: its first
    /// two bytes as a big-endian number, reduced to the circle.
    pub fn hue(&self) -> (degrees: u16)
        ensures
            degrees == (self@[0] * 256 + self@[1]) % 360,
    {
        let high: u16 = self.bytes[0] as u16;
        let low: u16 = self.bytes[1] as u16;
        (high * 256 + low) % 360
    }

}

/// A public key behind its length, read from the front of `s`.
pub open spec fn key_decoding(s: Seq<u8>) -> Result<(Seq<u8>, int), WireError> {
    match bytes_decoding(s) {
        Err(e) => Err(e),
        Ok((key, n)) => if key.len() != 32 || !ed25519_is_point(key) {
            Err(WireError::InvalidKey)
        } else {
            Ok((key, n))
        },
    }
}

/// Reads a length-prefixed public key at `pos`.
pub(crate) fn take_key(bytes: &[u8], pos: usize) -> (r: Result<(VerifyingKey, usize), WireError>)
    requires
        pos <= bytes@.len(),
    ensures
        match key_decoding(bytes@.skip(pos as int)) {
            Ok((k, n)) => r.is_ok() && r.unwrap().0@ == k && r.unwrap().1 == pos + n && pos + n
                <= bytes@.len(),
            Err(e) => r.is_err() && r.unwrap_err() == e,
        },
{
    let (data, next) = match take_bytes(bytes, pos) {
        Ok(v) => v,
        Err(e) => { return Err(e); },
    };
    if data.len() != 32 {
        return Err(WireError::InvalidKey);
    }
    assert(data@.skip(0) =~= data@);
    let raw = match take_array::<32>(data.as_slice(), 0) {
        Ok((raw, _)) => raw,
        Err(e) => { return Err(e); },
    };
    assert(raw@ =~= data@);
    match VerifyingKey::from_bytes(&raw) {
        Some(key) => Ok((key, next)),
        None => Err(WireError::InvalidKey),
    }
}

} // verus!
