//! Chat events: their bodies and wire form, signing and verification.

use crate::error::SignatureError;
use crate::identity::{
    key_decoding, take_key, NodeId, Nonce, Signature, SigningKey, VerifyingKey,
};
use crate::primitives::{
    ed25519_is_point, ed25519_public_key, ed25519_signature, ed25519_strict_valid, random_nonce,
};
use crate::text::{chars_of, trim_bounds, trimmed};
use crate::wire::{
    bytes_decoding, bytes_encoding, fixed_decoding, lemma_bytes_round_trip,
    lemma_string_round_trip, lemma_varint_round_trip, lemma_width_bounds, put_bytes, put_slice,
    put_string, put_varint, string_decoding, string_encoding, take_array, take_bytes, take_string,
    take_varint, u32_decoding, varint_encoding, WireError,
};
use vstd::prelude::*;
use vstd::slice::slice_subrange;
use vstd::string::{StrSliceExecFns, StringExecFns};
use vstd::utf8::encode_utf8;

verus! {

/// What a participant says, before anyone vouches for it.
#[derive(Clone, Debug, PartialEq, Eq)]
pub enum ChatEventBody {
    NewMessage { name: String, message: String },
    SetName { name: String },
    NodeJoined,
    NodeLeft,
}

/// A verified event. The actor is the key that the signature was checked
/// against, never a field of the received body.
#[derive(Clone, Debug, PartialEq, Eq)]
pub enum ChatEvent {
    NewMessage { actor: NodeId, name: String, message: String },
    SetName { actor: NodeId, name: String },
    NodeJoined { actor: NodeId },
    NodeLeft { actor: NodeId },
}

/// The mathematical content of a [`ChatEventBody`].
pub enum BodyModel {
    NewMessage { name: Seq<char>, message: Seq<char> },
    SetName { name: Seq<char> },
    NodeJoined,
    NodeLeft,
}

/// The mathematical content of a [`ChatEvent`].
pub enum EventModel {
    NewMessage { actor: Seq<u8>, name: Seq<char>, message: Seq<char> },
    SetName { actor: Seq<u8>, name: Seq<char> },
    NodeJoined { actor: Seq<u8> },
    NodeLeft { actor: Seq<u8> },
}

impl View for ChatEventBody {
    type V = BodyModel;

    open spec fn view(&self) -> BodyModel {
        match *self {
            ChatEventBody::NewMessage { name, message } => BodyModel::NewMessage {
                name: name@,
                message: message@,
            },
            ChatEventBody::SetName { name } => BodyModel::SetName { name: name@ },
            ChatEventBody::NodeJoined => BodyModel::NodeJoined,
            ChatEventBody::NodeLeft => BodyModel::NodeLeft,
        }
    }
}

impl View for ChatEvent {
    type V = EventModel;

    open spec fn view(&self) -> EventModel {
        match *self {
            ChatEvent::NewMessage { actor, name, message } => EventModel::NewMessage {
                actor: actor@,
                name: name@,
                message: message@,
            },
            ChatEvent::SetName { actor, name } => EventModel::SetName { actor: actor@, name: name@ },
            ChatEvent::NodeJoined { actor } => EventModel::NodeJoined { actor: actor@ },
            ChatEvent::NodeLeft { actor } => EventModel::NodeLeft { actor: actor@ },
        }
    }
}

impl EventModel {
    /// The identity that the event is attributed to.
    pub open spec fn actor(self) -> Seq<u8> {
        match self {
            EventModel::NewMessage { actor, .. } => actor,
            EventModel::SetName { actor, .. } => actor,
            EventModel::NodeJoined { actor } => actor,
            EventModel::NodeLeft { actor } => actor,
        }
    }
}

impl ChatEvent {
    /// The identity that the event is attributed to.
    pub fn actor(&self) -> (id: NodeId)
        ensures
            id@ == self@.actor(),
    {
        match self {
            ChatEvent::NewMessage { actor, .. } => *actor,
            ChatEvent::SetName { actor, .. } => *actor,
            ChatEvent::NodeLeft { actor } => *actor,
            ChatEvent::NodeJoined { actor } => *actor,
        }
    }
}

/// The name that a message is shown under: the name trimmed, or none where
/// nothing is left of it.
pub open spec fn shown_name_of(name: Seq<char>) -> Option<Seq<char>> {
    if trimmed(name).len() == 0 {
        None
    } else {
        Some(trimmed(name))
    }
}

/// The name to show a message under, if any.
pub fn shown_name(name: &str) -> (shown: Option<String>)
    ensures
        match shown_name_of(name@) {
            Some(text) => shown.is_some() && shown.unwrap()@ == text,
            None => shown.is_none(),
        },
{
    let chars = chars_of(name);
    let (from, to) = trim_bounds(chars.as_slice(), 0, chars.len());
    assert(chars@.subrange(0, chars@.len() as int) =~= chars@);
    if from == to {
        None
    } else {
        Some(String::from_str(name.substring_char(from, to)))
    }
}

impl BodyModel {
    /// The event that this body becomes once `actor` is known to have signed
    /// it.
    pub open spec fn attributed_to(self, actor: Seq<u8>) -> EventModel {
        match self {
            BodyModel::NewMessage { name, message } => EventModel::NewMessage {
                actor,
                name,
                message,
            },
            BodyModel::SetName { name } => EventModel::SetName { actor, name },
            BodyModel::NodeJoined => EventModel::NodeJoined { actor },
            BodyModel::NodeLeft => EventModel::NodeLeft { actor },
        }
    }

    /// Whether every string is short enough for its length to be written.
    pub open spec fn encodable(self) -> bool {
        match self {
            BodyModel::NewMessage { name, message } => encode_utf8(name).len() <= u64::MAX
                && encode_utf8(message).len() <= u64::MAX,
            BodyModel::SetName { name } => encode_utf8(name).len() <= u64::MAX,
            BodyModel::NodeJoined => true,
            BodyModel::NodeLeft => true,
        }
    }

    /// The wire form: the variant's number, then its strings in order.
    pub open spec fn encoding(self) -> Seq<u8> {
        match self {
            BodyModel::NewMessage { name, message } => varint_encoding(0) + string_encoding(name)
                + string_encoding(message),
            BodyModel::SetName { name } => varint_encoding(1) + string_encoding(name),
            BodyModel::NodeJoined => varint_encoding(2),
            BodyModel::NodeLeft => varint_encoding(3),
        }
    }

    /// The body at the front of `s`. Bytes after it are not looked at.
    pub open spec fn decoding(s: Seq<u8>) -> Result<BodyModel, WireError> {
        match u32_decoding(s) {
            Err(e) => Err(e),
            Ok((tag, n)) => if tag == 0 {
                match string_decoding(s.skip(n)) {
                    Err(e) => Err(e),
                    Ok((name, m)) => match string_decoding(s.skip(n + m)) {
                        Err(e) => Err(e),
                        Ok((message, _)) => Ok(BodyModel::NewMessage { name, message }),
                    },
                }
            } else if tag == 1 {
                match string_decoding(s.skip(n)) {
                    Err(e) => Err(e),
                    Ok((name, _)) => Ok(BodyModel::SetName { name }),
                }
            } else if tag == 2 {
                Ok(BodyModel::NodeJoined)
            } else if tag == 3 {
                Ok(BodyModel::NodeLeft)
            } else {
                Err(WireError::UnknownVariant)
            },
        }
    }

    /// Decoding undoes encoding, whatever bytes follow the body.
    pub proof fn lemma_round_trip(self, rest: Seq<u8>)
        requires
            self.encodable(),
        ensures
            BodyModel::decoding(self.encoding() + rest) == Ok::<BodyModel, WireError>(self),
    {
        lemma_width_bounds();
        let s = self.encoding() + rest;
        match self {
            BodyModel::NewMessage { name, message } => {
                let tail = string_encoding(name) + string_encoding(message) + rest;
                assert(s =~= varint_encoding(0) + tail);
                lemma_varint_round_trip(0, tail, 5, 15);
                assert(s.skip(1) =~= string_encoding(name) + (string_encoding(message) + rest));
                lemma_string_round_trip(name, string_encoding(message) + rest);
                let m = string_encoding(name).len() as int;
                assert(s.skip(1 + m) =~= string_encoding(message) + rest);
                lemma_string_round_trip(message, rest);
            },
            BodyModel::SetName { name } => {
                let tail = string_encoding(name) + rest;
                assert(s =~= varint_encoding(1) + tail);
                lemma_varint_round_trip(1, tail, 5, 15);
                assert(s.skip(1) =~= tail);
                lemma_string_round_trip(name, rest);
            },
            BodyModel::NodeJoined => {
                lemma_varint_round_trip(2, rest, 5, 15);
            },
            BodyModel::NodeLeft => {
                lemma_varint_round_trip(3, rest, 5, 15);
            },
        }
    }
}

impl ChatEventBody {
    /// The wire form of this body.
    pub fn to_bytes(&self) -> (bytes: Vec<u8>)
        ensures
            bytes@ == self@.encoding(),
            self@.encodable(),
    {
        let mut out: Vec<u8> = Vec::new();
        match self {
            ChatEventBody::NewMessage { name, message } => {
                put_varint(&mut out, 0);
                put_string(&mut out, name.as_str());
                put_string(&mut out, message.as_str());
            },
            ChatEventBody::SetName { name } => {
                put_varint(&mut out, 1);
                put_string(&mut out, name.as_str());
            },
            ChatEventBody::NodeJoined => {
                put_varint(&mut out, 2);
            },
            ChatEventBody::NodeLeft => {
                put_varint(&mut out, 3);
            },
        }
        assert(out@ =~= self@.encoding());
        out
    }

    /// Reads a body from the front of `bytes`: the error of the first value
    /// that cannot be read, or the body. Trailing bytes are ignored.
    pub fn from_bytes(bytes: &[u8]) -> (r: Result<ChatEventBody, WireError>)
        ensures
            match BodyModel::decoding(bytes@) {
                Ok(body) => r.is_ok() && r.unwrap()@ == body,
                Err(e) => r.is_err() && r.unwrap_err() == e,
            },
    {
        assert(bytes@.skip(0) =~= bytes@);
        proof {
            lemma_width_bounds();
        }
        let (tag, n) = match take_varint(bytes, 0, 5, 15) {
            Ok(v) => v,
            Err(e) => { return Err(e); },
        };
        if tag == 0 {
            let (name, m) = match take_string(bytes, n) {
                Ok(v) => v,
                Err(e) => { return Err(e); },
            };
            let (message, _) = match take_string(bytes, m) {
                Ok(v) => v,
                Err(e) => { return Err(e); },
            };
            Ok(ChatEventBody::NewMessage { name, message })
        } else if tag == 1 {
            let (name, _) = match take_string(bytes, n) {
                Ok(v) => v,
                Err(e) => { return Err(e); },
            };
            Ok(ChatEventBody::SetName { name })
        } else if tag == 2 {
            Ok(ChatEventBody::NodeJoined)
        } else if tag == 3 {
            Ok(ChatEventBody::NodeLeft)
        } else {
            Err(WireError::UnknownVariant)
        }
    }
}

/// An event as it travels: the body's bytes, the nonce that was signed with
/// them, the signer's public key and the signature.
#[derive(Clone, Debug, PartialEq, Eq)]
pub struct SignedChatEvent {
    body_bytes: Vec<u8>,
    nonce: Nonce,
    key: VerifyingKey,
    sig: Signature,
}

/// The mathematical content of a [`SignedChatEvent`].
pub struct SignedModel {
    pub body_bytes: Seq<u8>,
    pub nonce: Seq<u8>,
    pub key: Seq<u8>,
    pub sig: Seq<u8>,
}

impl View for SignedChatEvent {
    type V = SignedModel;

    closed spec fn view(&self) -> SignedModel {
        SignedModel {
            body_bytes: self.body_bytes@,
            nonce: self.nonce@,
            key: self.key@,
            sig: self.sig@,
        }
    }
}

impl SignedModel {
    /// The widths are those of the wire, the body's length can be written,
    /// and the key is a point of the curve.
    pub open spec fn well_formed(self) -> bool {
        &&& self.body_bytes.len() <= u64::MAX
        &&& self.nonce.len() == 16
        &&& self.key.len() == 32
        &&& self.sig.len() == 64
        &&& ed25519_is_point(self.key)
    }

    /// The bytes that the signature is over: the body, then the nonce.
    pub open spec fn signed_bytes(self) -> Seq<u8> {
        self.body_bytes + self.nonce
    }

    /// What signing `body` with `secret` and `nonce` gives.
    pub open spec fn signing(body: BodyModel, secret: Seq<u8>, nonce: Seq<u8>) -> SignedModel {
        SignedModel {
            body_bytes: body.encoding(),
            nonce,
            key: ed25519_public_key(secret),
            sig: ed25519_signature(secret, body.encoding() + nonce),
        }
    }

    /// What verifying gives. The signature is judged first, over the bytes as
    /// they came; only then is the body read, and the actor is the key.
    pub open spec fn verification(self) -> Result<EventModel, SignatureError> {
        if !ed25519_strict_valid(self.key, self.signed_bytes(), self.sig) {
            Err(SignatureError::Dalek)
        } else {
            match BodyModel::decoding(self.body_bytes) {
                Err(e) => Err(SignatureError::Postcard(e)),
                Ok(body) => Ok(body.attributed_to(self.key)),
            }
        }
    }

    /// The wire form: the body behind its length, the nonce, the key behind
    /// its length, the signature.
    pub open spec fn encoding(self) -> Seq<u8> {
        bytes_encoding(self.body_bytes) + self.nonce + bytes_encoding(self.key) + self.sig
    }

    /// The signed event at the front of `s`. Bytes after it are not looked at.
    pub open spec fn decoding(s: Seq<u8>) -> Result<SignedModel, WireError> {
        match bytes_decoding(s) {
            Err(e) => Err(e),
            Ok((body_bytes, a)) => match fixed_decoding(s.skip(a), 16) {
                Err(e) => Err(e),
                Ok((nonce, b)) => match key_decoding(s.skip(a + b)) {
                    Err(e) => Err(e),
                    Ok((key, c)) => match fixed_decoding(s.skip(a + b + c), 64) {
                        Err(e) => Err(e),
                        Ok((sig, _)) => Ok(SignedModel { body_bytes, nonce, key, sig }),
                    },
                },
            },
        }
    }

    /// Decoding undoes encoding, whatever bytes follow.
    pub proof fn lemma_round_trip(self, rest: Seq<u8>)
        requires
            self.well_formed(),
        ensures
            SignedModel::decoding(self.encoding() + rest) == Ok::<SignedModel, WireError>(self),
    {
        let s = self.encoding() + rest;
        let t1 = self.nonce + bytes_encoding(self.key) + self.sig + rest;
        assert(s =~= bytes_encoding(self.body_bytes) + t1);
        lemma_bytes_round_trip(self.body_bytes, t1);
        let a = bytes_encoding(self.body_bytes).len() as int;
        let t2 = bytes_encoding(self.key) + (self.sig + rest);
        assert(s.skip(a) =~= self.nonce + t2);
        assert(s.skip(a).subrange(0, 16) =~= self.nonce);
        assert(s.skip(a + 16) =~= t2);
        lemma_bytes_round_trip(self.key, self.sig + rest);
        let c = bytes_encoding(self.key).len() as int;
        assert(s.skip(a + 16 + c) =~= self.sig + rest);
        assert(s.skip(a + 16 + c).subrange(0, 64) =~= self.sig);
    }
}

impl SignedChatEvent {
    /// Checks the signature over body and nonce, strictly, under the embedded
    /// key, then reads the body and attributes it to that key.
    ///
    /// The outcome depends on the event alone. No nonce is remembered, so an
    /// event that verified once verifies again when it is presented again: a
    /// receiver that must not act twice on one event keeps track of the
    /// events it has seen.
    pub fn verify_into(self) -> (r: Result<ChatEvent, SignatureError>)
        ensures
            match self@.verification() {
                Ok(event) => r.is_ok() && r.unwrap()@ == event,
                Err(e) => r.is_err() && r.unwrap_err() == e,
            },
    {
        let body_bytes_len = self.body_bytes.len();
        let mut with_nonce = self.body_bytes;
        put_slice(&mut with_nonce, self.nonce.as_slice());
        if !self.key.verify_strict(with_nonce.as_slice(), &self.sig) {
            return Err(SignatureError::Dalek);
        }
        let body_bytes = slice_subrange(with_nonce.as_slice(), 0, body_bytes_len);
        assert(body_bytes@ =~= self@.body_bytes);
        let event_body = match ChatEventBody::from_bytes(body_bytes) {
            Ok(body) => body,
            Err(e) => { return Err(SignatureError::Postcard(e)); },
        };
        let actor = NodeId::from_key(&self.key);
        let event = match event_body {
            ChatEventBody::NewMessage { name, message } => ChatEvent::NewMessage {
                actor,
                name,
                message,
            },
            ChatEventBody::SetName { name } => ChatEvent::SetName { actor, name },
            ChatEventBody::NodeJoined => ChatEvent::NodeJoined { actor },
            ChatEventBody::NodeLeft => ChatEvent::NodeLeft { actor },
        };
        Ok(event)
    }

    /// The wire form of this event. Every event is well-formed, so its wire
    /// form reads back as the event.
    pub fn to_vec(&self) -> (bytes: Vec<u8>)
        ensures
            bytes@ == self@.encoding(),
            self@.well_formed(),
    {
        let mut out: Vec<u8> = Vec::new();
        put_bytes(&mut out, self.body_bytes.as_slice());
        put_slice(&mut out, self.nonce.as_slice());
        let key = self.key.to_bytes();
        put_bytes(&mut out, key.as_slice());
        let sig = self.sig.to_bytes();
        put_slice(&mut out, sig.as_slice());
        assert(out@ =~= self@.encoding());
        out
    }

    /// Reads a signed event from the front of `bytes`: the error of the first
    /// field that cannot be read, or the event. No signature is checked here.
    pub fn from_bytes(bytes: &[u8]) -> (r: Result<SignedChatEvent, WireError>)
        ensures
            match SignedModel::decoding(bytes@) {
                Ok(signed) => r.is_ok() && r.unwrap()@ == signed && signed.well_formed(),
                Err(e) => r.is_err() && r.unwrap_err() == e,
            },
    {
        assert(bytes@.skip(0) =~= bytes@);
        let (body_bytes, a) = match take_bytes(bytes, 0) {
            Ok(v) => v,
            Err(e) => { return Err(e); },
        };
        let (nonce, b) = match take_array::<16>(bytes, a) {
            Ok(v) => v,
            Err(e) => { return Err(e); },
        };
        let (key, c) = match take_key(bytes, b) {
            Ok(v) => v,
            Err(e) => { return Err(e); },
        };
        let (sig, _) = match take_array::<64>(bytes, c) {
            Ok(v) => v,
            Err(e) => { return Err(e); },
        };
        Ok(SignedChatEvent { body_bytes, nonce, key, sig: Signature::from_bytes(&sig) })
    }

    pub fn body_bytes(&self) -> (bytes: &Vec<u8>)
        ensures
            bytes@ == self@.body_bytes,
    {
        &self.body_bytes
    }

    pub fn nonce(&self) -> (nonce: Nonce)
        ensures
            nonce@ == self@.nonce,
    {
        self.nonce
    }

    pub fn key(&self) -> (key: VerifyingKey)
        ensures
            key@ == self@.key,
    {
        self.key
    }

    pub fn sig(&self) -> (sig: Signature)
        ensures
            sig@ == self@.sig,
    {
        self.sig
    }
}

/// The state of a builder in which nothing has been chosen yet.
pub struct Initial;

/// The stages that the payload of a builder goes through.
pub trait EventState {

}

/// The payload of a message under a display name.
pub struct NewMessage {
    name: String,
    message: String,
}

/// The payload of a change of display name.
pub struct SetName {
    name: String,
}

/// The payload that announces a participant.
pub struct NodeJoined;

/// The payload that says a participant has gone.
pub struct NodeLeft;

impl EventState for Initial {

}

impl EventState for NewMessage {

}

impl EventState for SetName {

}

impl EventState for NodeJoined {

}

impl EventState for NodeLeft {

}

/// The stages that signing goes through.
pub trait SignState {

}

/// The state of a builder whose payload is chosen and which waits for a key.
pub struct ReadyToSign;

/// The state of a builder that holds the key it was signed with.
pub struct Signed {
    key: VerifyingKey,
}

impl SignState for Initial {

}

impl SignState for ReadyToSign {

}

impl SignState for Signed {

}

/// A staged builder: from the initial stage exactly one payload can be chosen,
/// and a chosen payload can only be signed, once.
pub struct ChatEventBuilder<E: EventState, S: SignState> {
    sign: S,
    event: E,
}

impl ChatEvent {
    /// A builder in its initial stage.
    pub fn builder() -> ChatEventBuilder<Initial, Initial> {
        ChatEventBuilder::new()
    }
}

impl ChatEventBuilder<Initial, Initial> {
    pub fn new() -> Self {
        Self { sign: Initial, event: Initial }
    }

    /// Chooses a message as the payload.
    pub fn new_message(self, name: &str, message: &str) -> (ready: ChatEventBuilder<
        NewMessage,
        ReadyToSign,
    >)
        ensures
            ready.body() == (BodyModel::NewMessage { name: name@, message: message@ }),
    {
        ChatEventBuilder {
            sign: ReadyToSign,
            event: NewMessage { name: name.to_owned(), message: message.to_owned() },
        }
    }

    /// Chooses a change of name as the payload.
    pub fn set_name(self, name: &str) -> (ready: ChatEventBuilder<SetName, ReadyToSign>)
        ensures
            ready.body() == (BodyModel::SetName { name: name@ }),
    {
        ChatEventBuilder { sign: ReadyToSign, event: SetName { name: name.to_owned() } }
    }

    /// Chooses the announcement of a participant as the payload.
    pub fn node_joined(self) -> (ready: ChatEventBuilder<NodeJoined, ReadyToSign>)
        ensures
            ready.body() == BodyModel::NodeJoined,
    {
        ChatEventBuilder { sign: ReadyToSign, event: NodeJoined }
    }

    /// Chooses the departure of a participant as the payload.
    pub fn node_left(self) -> (ready: ChatEventBuilder<NodeLeft, ReadyToSign>)
        ensures
            ready.body() == BodyModel::NodeLeft,
    {
        ChatEventBuilder { sign: ReadyToSign, event: NodeLeft }
    }
}

impl ChatEventBuilder<NewMessage, ReadyToSign> {
    /// The body that signing will sign.
    pub closed spec fn body(self) -> BodyModel {
        BodyModel::NewMessage { name: self.event.name@, message: self.event.message@ }
    }

    /// Signs the chosen payload over a fresh nonce, and uses the builder up.
    pub fn sign(self, key: &SigningKey) -> (signed: SignedChatEvent)
        ensures
            signed@ == SignedModel::signing(self.body(), key@, signed@.nonce),
            signed@.well_formed(),
    {
        let body = ChatEventBody::NewMessage { name: self.event.name, message: self.event.message };
        sign_chat_event(body, key)
    }
}

impl ChatEventBuilder<SetName, ReadyToSign> {
    /// The body that signing will sign.
    pub closed spec fn body(self) -> BodyModel {
        BodyModel::SetName { name: self.event.name@ }
    }

    /// Signs the chosen payload over a fresh nonce, and uses the builder up.
    pub fn sign(self, key: &SigningKey) -> (signed: SignedChatEvent)
        ensures
            signed@ == SignedModel::signing(self.body(), key@, signed@.nonce),
            signed@.well_formed(),
    {
        let body = ChatEventBody::SetName { name: self.event.name };
        sign_chat_event(body, key)
    }
}

impl ChatEventBuilder<NodeJoined, ReadyToSign> {
    /// The body that signing will sign.
    pub closed spec fn body(self) -> BodyModel {
        BodyModel::NodeJoined
    }

    /// Signs the chosen payload over a fresh nonce, and uses the builder up.
    pub fn sign(self, key: &SigningKey) -> (signed: SignedChatEvent)
        ensures
            signed@ == SignedModel::signing(self.body(), key@, signed@.nonce),
            signed@.well_formed(),
    {
        let body = ChatEventBody::NodeJoined;
        sign_chat_event(body, key)
    }
}

impl ChatEventBuilder<NodeLeft, ReadyToSign> {
    /// The body that signing will sign.
    pub closed spec fn body(self) -> BodyModel {
        BodyModel::NodeLeft
    }

    /// Signs the chosen payload over a fresh nonce, and uses the builder up.
    pub fn sign(self, key: &SigningKey) -> (signed: SignedChatEvent)
        ensures
            signed@ == SignedModel::signing(self.body(), key@, signed@.nonce),
            signed@.well_formed(),
    {
        let body = ChatEventBody::NodeLeft;
        sign_chat_event(body, key)
    }
}

/// Signs `event` with `key` over the given nonce: the body's bytes and the
/// nonce are signed together, and only the body's bytes, the nonce, the
/// public key and the signature are kept.
pub fn sign_with_nonce(event: ChatEventBody, key: &SigningKey, nonce: Nonce) -> (signed:
    SignedChatEvent)
    ensures
        signed@ == SignedModel::signing(event@, key@, nonce@),
        signed@.well_formed(),
{
    let mut bytes = event.to_bytes();
    let body_bytes_len: usize = bytes.len();
    put_slice(&mut bytes, nonce.as_slice());
    let sig = key.sign(bytes.as_slice());
    bytes.truncate(body_bytes_len);
    assert(bytes@ =~= event@.encoding());
    SignedChatEvent { body_bytes: bytes, nonce, key: key.verifying_key(), sig }
}

/// Signs `event` with `key` over a fresh random nonce. Whatever nonce was
/// drawn, the result is the signing of the event over that nonce.
pub fn sign_chat_event(event: ChatEventBody, key: &SigningKey) -> (signed: SignedChatEvent)
    ensures
        signed@ == SignedModel::signing(event@, key@, signed@.nonce),
        signed@.well_formed(),
{
    let nonce = random_nonce();
    sign_with_nonce(event, key, nonce)
}

/// What a receiver makes of the bytes of one broadcast: they are read as a
/// signed event, and the event is verified.
pub open spec fn reception(bytes: Seq<u8>) -> Result<EventModel, SignatureError> {
    match SignedModel::decoding(bytes) {
        Err(e) => Err(SignatureError::Postcard(e)),
        Ok(signed) => signed.verification(),
    }
}

/// The receiver's step: the verified event in `bytes`, or why there is none.
/// Either failure concerns this one message only.
pub fn receive_event(bytes: &[u8]) -> (r: Result<ChatEvent, SignatureError>)
    ensures
        match reception(bytes@) {
            Ok(event) => r.is_ok() && r.unwrap()@ == event,
            Err(e) => r.is_err() && r.unwrap_err() == e,
        },
{
    match SignedChatEvent::from_bytes(bytes) {
        Ok(signed) => signed.verify_into(),
        Err(e) => Err(SignatureError::Postcard(e)),
    }
}

/// Signing, then verifying, gives back the body, attributed to the signer's
/// public key, wherever the signature library accepts the signature that it
/// made. (Strict verification refuses keys and signatures of small order,
/// so acceptance is a premise here and no consequence.)
pub proof fn lemma_sign_then_verify(body: BodyModel, secret: Seq<u8>, nonce: Seq<u8>)
    requires
        body.encodable(),
        ed25519_strict_valid(
            ed25519_public_key(secret),
            body.encoding() + nonce,
            ed25519_signature(secret, body.encoding() + nonce),
        ),
    ensures
        SignedModel::signing(body, secret, nonce).verification() == Ok::<
            EventModel,
            SignatureError,
        >(body.attributed_to(ed25519_public_key(secret))),
{
    body.lemma_round_trip(Seq::empty());
    assert(body.encoding() + Seq::<u8>::empty() =~= body.encoding());
}

/// The same over the wire: what a signer sends, a receiver reads as the body,
/// attributed to the signer's public key, on the same premise.
pub proof fn lemma_send_then_receive(body: BodyModel, secret: Seq<u8>, nonce: Seq<u8>)
    requires
        body.encodable(),
        SignedModel::signing(body, secret, nonce).well_formed(),
        ed25519_strict_valid(
            ed25519_public_key(secret),
            body.encoding() + nonce,
            ed25519_signature(secret, body.encoding() + nonce),
        ),
    ensures
        reception(SignedModel::signing(body, secret, nonce).encoding()) == Ok::<
            EventModel,
            SignatureError,
        >(body.attributed_to(ed25519_public_key(secret))),
{
    let signed = SignedModel::signing(body, secret, nonce);
    signed.lemma_round_trip(Seq::empty());
    assert(signed.encoding() + Seq::<u8>::empty() =~= signed.encoding());
    lemma_sign_then_verify(body, secret, nonce);
}

/// A signed event that fails the signature check is refused for that, whatever
/// its body holds.
pub proof fn lemma_bad_signature_is_refused(signed: SignedModel)
    requires
        !ed25519_strict_valid(signed.key, signed.signed_bytes(), signed.sig),
    ensures
        signed.verification() == Err::<EventModel, SignatureError>(SignatureError::Dalek),
{
}

/// The actor of a verified event is the embedded key and nothing else: two
/// signed events with the same key give events with the same actor.
pub proof fn lemma_actor_is_key(signed: SignedModel)
    ensures
        signed.verification() matches Ok(event) ==> event.actor() == signed.key,
{
}

} // verus!
