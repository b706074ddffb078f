//! Finding peers and checking who answers at an address.
//!
//! The sockets, the timers and the lookup service are the caller's. What is
//! here are the frames of the identity challenge, the judgement of an answer,
//! and the bookkeeping of a bounded collection of peer addresses.

use crate::error::{DiscoveryError, SignatureError};
use crate::identity::{
    key_decoding, take_key, NodeId, Nonce, Signature, SigningKey, VerifyingKey,
};
use crate::primitives::{
    blake3_digest, blake3_hash, cobs_decode, cobs_decoding, cobs_encode, cobs_encoding,
    ed25519_is_point, ed25519_public_key, ed25519_signature, ed25519_strict_valid, random_nonce,
};
use crate::wire::{
    bytes_encoding, fixed_decoding, lemma_bytes_round_trip, put_bytes, put_slice, take_array,
    WireError,
};
use vstd::prelude::*;
use vstd::utf8::encode_utf8;

verus! {

/// The key under which a topic's peers are announced and looked up.
#[derive(Clone, Copy, Debug, PartialEq, Eq, Hash)]
pub struct InfoHash {
    bytes: [u8; 20],
}

impl View for InfoHash {
    type V = Seq<u8>;

    closed spec fn view(&self) -> Seq<u8> {
        self.bytes@
    }
}

impl InfoHash {
    pub fn as_bytes(&self) -> (bytes: &[u8; 20])
        ensures
            bytes@ == self@,
    {
        &self.bytes
    }
}

/// The identifier of a topic: the BLAKE3 digest of its UTF-8 form.
pub open spec fn topic_id_of(topic: Seq<char>) -> Seq<u8> {
    blake3_digest(encode_utf8(topic))
}

/// The lookup key of a topic: the first twenty bytes of its identifier.
pub open spec fn infohash_of(topic: Seq<char>) -> Seq<u8> {
    topic_id_of(topic).subrange(0, 20)
}

/// The identifier under which the messages of `topic` are exchanged.
pub fn topic_id_for(topic: &str) -> (id: [u8; 32])
    ensures
        id@ == topic_id_of(topic@),
{
    blake3_hash(topic.as_bytes())
}

/// The lookup key of `topic`. It depends on the topic's characters alone, so
/// every participant that agrees on the topic computes the same key.
pub fn infohash_for(topic: &str) -> (id: InfoHash)
    ensures
        id@ == infohash_of(topic@),
{
    let hash = topic_id_for(topic);
    let mut bytes: [u8; 20] = [0u8; 20];
    let mut i: usize = 0;
    while i < 20
        invariant
            i <= 20,
            forall|j: int| 0 <= j < i ==> bytes@[j] == hash@[j],
        decreases 20 - i,
    {
        bytes[i] = hash[i];
        i += 1;
    }
    assert(bytes@ =~= hash@.subrange(0, 20));
    InfoHash { bytes }
}

/// The mathematical content of a challenge frame, question or answer: a
/// nonce, a public key and that key's signature over the nonce.
pub struct FrameModel {
    pub nonce: Seq<u8>,
    pub key: Seq<u8>,
    pub sig: Seq<u8>,
}

impl FrameModel {
    /// The widths are those of the wire and the key is a point of the curve.
    pub open spec fn well_formed(self) -> bool {
        &&& self.nonce.len() == 16
        &&& self.key.len() == 32
        &&& self.sig.len() == 64
        &&& ed25519_is_point(self.key)
    }

    /// The frame that the holder of `secret` makes over `nonce`.
    pub open spec fn signed_by(secret: Seq<u8>, nonce: Seq<u8>) -> FrameModel {
        FrameModel {
            nonce,
            key: ed25519_public_key(secret),
            sig: ed25519_signature(secret, nonce),
        }
    }

    /// Whether the signature holds strictly over the nonce under the key.
    pub open spec fn authentic(self) -> bool {
        ed25519_strict_valid(self.key, self.nonce, self.sig)
    }

    /// The wire form: the nonce, the key behind its length, the signature.
    pub open spec fn encoding(self) -> Seq<u8> {
        self.nonce + bytes_encoding(self.key) + self.sig
    }

    /// The frame at the front of `s`. Bytes after it are not looked at.
    pub open spec fn decoding(s: Seq<u8>) -> Result<FrameModel, WireError> {
        match fixed_decoding(s, 16) {
            Err(e) => Err(e),
            Ok((nonce, a)) => match key_decoding(s.skip(a)) {
                Err(e) => Err(e),
                Ok((key, b)) => match fixed_decoding(s.skip(a + b), 64) {
                    Err(e) => Err(e),
                    Ok((sig, _)) => Ok(FrameModel { nonce, key, sig }),
                },
            },
        }
    }

    /// The datagram that carries the frame: its wire form, byte-stuffed and
    /// closed by a zero, so that a reader finds its end in a larger buffer.
    pub open spec fn datagram(self) -> Seq<u8> {
        cobs_encoding(self.encoding()).push(0u8)
    }

    /// The frame inside a byte-stuffed datagram.
    pub open spec fn unstuffing(datagram: Seq<u8>) -> Result<FrameModel, WireError> {
        match cobs_decoding(datagram) {
            None => Err(WireError::BadEncoding),
            Some(payload) => FrameModel::decoding(payload),
        }
    }

    /// What the holder of `secret` answers to this question: nothing where
    /// the question's signature fails, else its own frame over the same nonce.
    pub open spec fn answer(self, secret: Seq<u8>) -> Result<FrameModel, SignatureError> {
        if !self.authentic() {
            Err(SignatureError::Dalek)
        } else {
            Ok(FrameModel::signed_by(secret, self.nonce))
        }
    }

    /// How an answer is judged against the nonce that was sent: the nonce is
    /// compared first, the signature second.
    pub open spec fn judgement(self, nonce: Seq<u8>) -> Result<(), DiscoveryError> {
        if self.nonce != nonce {
            Err(DiscoveryError::InvalidNonce)
        } else if !ed25519_strict_valid(self.key, nonce, self.sig) {
            Err(DiscoveryError::Dalek)
        } else {
            Ok(())
        }
    }

    /// Decoding undoes encoding, whatever bytes follow.
    pub proof fn lemma_round_trip(self, rest: Seq<u8>)
        requires
            self.well_formed(),
        ensures
            FrameModel::decoding(self.encoding() + rest) == Ok::<FrameModel, WireError>(self),
    {
        let s = self.encoding() + rest;
        let tail = bytes_encoding(self.key) + (self.sig + rest);
        assert(s =~= self.nonce + tail);
        assert(s.subrange(0, 16) =~= self.nonce);
        assert(s.skip(16) =~= tail);
        lemma_bytes_round_trip(self.key, self.sig + rest);
        let b = bytes_encoding(self.key).len() as int;
        assert(s.skip(16 + b) =~= self.sig + rest);
        assert(s.skip(16 + b).subrange(0, 64) =~= self.sig);
    }
}

/// An answer that carries another nonce than the one sent is refused for
/// that, however good its signature.
pub proof fn lemma_foreign_nonce_is_refused(answer: FrameModel, nonce: Seq<u8>)
    requires
        answer.nonce != nonce,
    ensures
        answer.judgement(nonce) == Err::<(), DiscoveryError>(DiscoveryError::InvalidNonce),
{
}

/// Whether two nonces hold the same bytes.
pub fn same_nonce(a: &Nonce, b: &Nonce) -> (same: bool)
    ensures
        same == (a@ == b@),
{
    let mut i: usize = 0;
    while i < 16
        invariant
            i <= 16,
            forall|j: int| 0 <= j < i ==> a@[j] == b@[j],
        decreases 16 - i,
    {
        if a[i] != b[i] {
            return false;
        }
        i += 1;
    }
    assert(a@ =~= b@);
    true
}

/// Appends a frame's wire form to `out`.
fn put_frame(out: &mut Vec<u8>, nonce: &Nonce, key: &VerifyingKey, sig: &Signature)
    ensures
        final(out)@ == old(out)@ + (FrameModel { nonce: nonce@, key: key@, sig: sig@ }).encoding(),
        (FrameModel { nonce: nonce@, key: key@, sig: sig@ }).well_formed(),
{
    put_slice(out, nonce.as_slice());
    let key_bytes = key.to_bytes();
    put_bytes(out, key_bytes.as_slice());
    let sig_bytes = sig.to_bytes();
    put_slice(out, sig_bytes.as_slice());
    assert(final(out)@ =~= old(out)@ + (FrameModel {
        nonce: nonce@,
        key: key@,
        sig: sig@,
    }).encoding());
}

/// Reads a frame's three fields from the front of `bytes`.
fn take_frame(bytes: &[u8]) -> (r: Result<(Nonce, VerifyingKey, Signature), WireError>)
    ensures
        match FrameModel::decoding(bytes@) {
            Ok(frame) => r.is_ok() && frame.well_formed() && (FrameModel {
                nonce: r.unwrap().0@,
                key: r.unwrap().1@,
                sig: r.unwrap().2@,
            }) == frame,
            Err(e) => r.is_err() && r.unwrap_err() == e,
        },
{
    assert(bytes@.skip(0) =~= bytes@);
    let (nonce, a) = match take_array::<16>(bytes, 0) {
        Ok(v) => v,
        Err(e) => { return Err(e); },
    };
    let (key, b) = match take_key(bytes, a) {
        Ok(v) => v,
        Err(e) => { return Err(e); },
    };
    let (sig, _) = match take_array::<64>(bytes, b) {
        Ok(v) => v,
        Err(e) => { return Err(e); },
    };
    Ok((nonce, key, Signature::from_bytes(&sig)))
}

/// Stuffs a payload and closes it with a zero.
fn stuff(payload: &[u8]) -> (datagram: Vec<u8>)
    ensures
        datagram@ == cobs_encoding(payload@).push(0u8),
{
    let mut out = cobs_encode(payload);
    out.push(0u8);
    out
}

/// The question of a challenge: "who are you?", signed by the asker.
#[derive(Clone, Debug, PartialEq, Eq)]
pub struct WhoAmI {
    client_nonce: Nonce,
    client_key: VerifyingKey,
    client_sig: Signature,
}

/// The answer to a challenge: the question's nonce, signed by the answerer.
#[derive(Clone, Debug, PartialEq, Eq)]
pub struct WhoAmIResp {
    client_nonce: Nonce,
    server_key: VerifyingKey,
    server_sig: Signature,
}

impl View for WhoAmI {
    type V = FrameModel;

    closed spec fn view(&self) -> FrameModel {
        FrameModel { nonce: self.client_nonce@, key: self.client_key@, sig: self.client_sig@ }
    }
}

impl View for WhoAmIResp {
    type V = FrameModel;

    closed spec fn view(&self) -> FrameModel {
        FrameModel { nonce: self.client_nonce@, key: self.server_key@, sig: self.server_sig@ }
    }
}

impl WhoAmI {
    /// The question that the holder of `sig_key` asks over `nonce`.
    pub fn new(sig_key: &SigningKey, nonce: Nonce) -> (question: WhoAmI)
        ensures
            question@ == FrameModel::signed_by(sig_key@, nonce@),
            question@.well_formed(),
    {
        WhoAmI {
            client_nonce: nonce,
            client_key: sig_key.verifying_key(),
            client_sig: sig_key.sign(nonce.as_slice()),
        }
    }

    /// Reads a question from the front of an unstuffed payload.
    pub fn from_bytes(payload: &[u8]) -> (r: Result<WhoAmI, WireError>)
        ensures
            match FrameModel::decoding(payload@) {
                Ok(frame) => r.is_ok() && r.unwrap()@ == frame && frame.well_formed(),
                Err(e) => r.is_err() && r.unwrap_err() == e,
            },
    {
        match take_frame(payload) {
            Ok((client_nonce, client_key, client_sig)) => Ok(
                WhoAmI { client_nonce, client_key, client_sig },
            ),
            Err(e) => Err(e),
        }
    }

    /// Reads a question from a byte-stuffed datagram.
    pub fn from_buf(buf: &[u8]) -> (r: Result<WhoAmI, WireError>)
        ensures
            match FrameModel::unstuffing(buf@) {
                Ok(frame) => r.is_ok() && r.unwrap()@ == frame && frame.well_formed(),
                Err(e) => r.is_err() && r.unwrap_err() == e,
            },
    {
        match cobs_decode(buf) {
            Some(payload) => WhoAmI::from_bytes(payload.as_slice()),
            None => Err(WireError::BadEncoding),
        }
    }

    /// The wire form of this question. Every question is well-formed, so its wire
    /// form reads back as the question.
    pub fn to_bytes(&self) -> (bytes: Vec<u8>)
        ensures
            bytes@ == self@.encoding(),
            self@.well_formed(),
    {
        let mut out: Vec<u8> = Vec::new();
        put_frame(&mut out, &self.client_nonce, &self.client_key, &self.client_sig);
        assert(out@ =~= self@.encoding());
        out
    }

    /// The datagram that carries this question.
    pub fn to_frame(&self) -> (datagram: Vec<u8>)
        ensures
            datagram@ == self@.datagram(),
    {
        stuff(self.to_bytes().as_slice())
    }

    /// Checks the asker's signature over the nonce, strictly, and answers
    /// with the same nonce signed by `sig_key`.
    pub fn into_resp(self, sig_key: &SigningKey) -> (r: Result<WhoAmIResp, SignatureError>)
        ensures
            match self@.answer(sig_key@) {
                Ok(frame) => r.is_ok() && r.unwrap()@ == frame && frame.well_formed(),
                Err(e) => r.is_err() && r.unwrap_err() == e,
            },
    {
        if !self.client_key.verify_strict(self.client_nonce.as_slice(), &self.client_sig) {
            return Err(SignatureError::Dalek);
        }
        let sig = sig_key.sign(self.client_nonce.as_slice());
        Ok(
            WhoAmIResp {
                client_nonce: self.client_nonce,
                server_key: sig_key.verifying_key(),
                server_sig: sig,
            },
        )
    }
}

impl WhoAmIResp {
    /// Reads an answer from the front of an unstuffed payload.
    pub fn from_bytes(payload: &[u8]) -> (r: Result<WhoAmIResp, WireError>)
        ensures
            match FrameModel::decoding(payload@) {
                Ok(frame) => r.is_ok() && r.unwrap()@ == frame && frame.well_formed(),
                Err(e) => r.is_err() && r.unwrap_err() == e,
            },
    {
        match take_frame(payload) {
            Ok((client_nonce, server_key, server_sig)) => Ok(
                WhoAmIResp { client_nonce, server_key, server_sig },
            ),
            Err(e) => Err(e),
        }
    }

    /// Reads an answer from a byte-stuffed datagram.
    pub fn from_buf(buf: &[u8]) -> (r: Result<WhoAmIResp, WireError>)
        ensures
            match FrameModel::unstuffing(buf@) {
                Ok(frame) => r.is_ok() && r.unwrap()@ == frame && frame.well_formed(),
                Err(e) => r.is_err() && r.unwrap_err() == e,
            },
    {
        match cobs_decode(buf) {
            Some(payload) => WhoAmIResp::from_bytes(payload.as_slice()),
            None => Err(WireError::BadEncoding),
        }
    }

    /// The wire form of this answer. Every answer is well-formed, so its wire
    /// form reads back as the answer.
    pub fn to_bytes(&self) -> (bytes: Vec<u8>)
        ensures
            bytes@ == self@.encoding(),
            self@.well_formed(),
    {
        let mut out: Vec<u8> = Vec::new();
        put_frame(&mut out, &self.client_nonce, &self.server_key, &self.server_sig);
        assert(out@ =~= self@.encoding());
        out
    }

    /// The datagram that carries this answer.
    pub fn to_frame(&self) -> (datagram: Vec<u8>)
        ensures
            datagram@ == self@.datagram(),
    {
        stuff(self.to_bytes().as_slice())
    }

    /// Judges this answer against the nonce that was sent: the nonces must
    /// agree, and the signature must hold strictly over the nonce.
    pub fn verify(&self, nonce: Nonce) -> (r: Result<(), DiscoveryError>)
        ensures
            r == self@.judgement(nonce@),
    {
        if !same_nonce(&self.client_nonce, &nonce) {
            return Err(DiscoveryError::InvalidNonce);
        }
        if self.server_key.verify_strict(nonce.as_slice(), &self.server_sig) {
            Ok(())
        } else {
            Err(DiscoveryError::Dalek)
        }
    }

    /// The key that signed this answer.
    pub fn server_key(&self) -> (key: VerifyingKey)
        ensures
            key@ == self@.key,
    {
        self.server_key
    }
}

/// What the responder does with one datagram: it answers a well-formed,
/// well-signed question with the bytes of its answer, and is silent on
/// anything else.
pub open spec fn reply_to(datagram: Seq<u8>, secret: Seq<u8>) -> Option<Seq<u8>> {
    match FrameModel::unstuffing(datagram) {
        Err(_) => None,
        Ok(question) => match question.answer(secret) {
            Err(_) => None,
            Ok(answer) => Some(answer.datagram()),
        },
    }
}

/// The responder's step: the bytes to send back to the sender of `datagram`,
/// or nothing. No state is kept from one datagram to the next.
pub fn whoami_reply(sig_key: &SigningKey, datagram: &[u8]) -> (reply: Option<Vec<u8>>)
    ensures
        match reply_to(datagram@, sig_key@) {
            Some(bytes) => reply.is_some() && reply.unwrap()@ == bytes,
            None => reply.is_none(),
        },
{
    let question = match WhoAmI::from_buf(datagram) {
        Ok(question) => question,
        Err(_) => { return None; },
    };
    match question.into_resp(sig_key) {
        Ok(answer) => Some(answer.to_frame()),
        Err(_) => None,
    }
}

/// How the wait for an answer ended.
#[derive(Clone, Debug, PartialEq, Eq)]
pub enum ProbeOutcome {
    /// A datagram came in time.
    Answered(Vec<u8>),
    /// The time ran out first.
    TimedOut,
    /// The socket failed.
    Failed,
}

/// The mathematical content of a [`ProbeOutcome`].
pub enum OutcomeModel {
    Answered(Seq<u8>),
    TimedOut,
    Failed,
}

impl View for ProbeOutcome {
    type V = OutcomeModel;

    open spec fn view(&self) -> OutcomeModel {
        match *self {
            ProbeOutcome::Answered(bytes) => OutcomeModel::Answered(bytes@),
            ProbeOutcome::TimedOut => OutcomeModel::TimedOut,
            ProbeOutcome::Failed => OutcomeModel::Failed,
        }
    }
}

/// What a probe that sent `nonce` makes of an outcome: the answerer's
/// identity where a well-formed answer carries the nonce and a strictly valid
/// signature over it, else the error of the first check that failed.
pub open spec fn probe_result(nonce: Seq<u8>, outcome: OutcomeModel) -> Result<
    Seq<u8>,
    DiscoveryError,
> {
    match outcome {
        OutcomeModel::TimedOut => Err(DiscoveryError::Timeout),
        OutcomeModel::Failed => Err(DiscoveryError::Io),
        OutcomeModel::Answered(datagram) => match FrameModel::unstuffing(datagram) {
            Err(e) => Err(DiscoveryError::Postcard(e)),
            Ok(answer) => match answer.judgement(nonce) {
                Err(e) => Err(e),
                Ok(_) => Ok(answer.key),
            },
        },
    }
}

/// A probe that has sent its question and waits for the answer.
#[derive(Debug)]
pub struct Probe {
    nonce: Nonce,
}

impl View for Probe {
    type V = Seq<u8>;

    /// The nonce that the question carried.
    closed spec fn view(&self) -> Seq<u8> {
        self.nonce@
    }
}

impl Probe {
    /// Starts a probe over the given nonce: the waiting probe and the
    /// datagram of the question to send.
    pub fn with_nonce(sig_key: &SigningKey, nonce: Nonce) -> (started: (Probe, Vec<u8>))
        ensures
            started.0@ == nonce@,
            started.1@ == FrameModel::signed_by(sig_key@, nonce@).datagram(),
    {
        let question = WhoAmI::new(sig_key, nonce);
        (Probe { nonce }, question.to_frame())
    }

    /// Starts a probe over a fresh random nonce. Whatever nonce was drawn,
    /// the question is the asker's frame over it.
    pub fn begin(sig_key: &SigningKey) -> (started: (Probe, Vec<u8>))
        ensures
            started.0@.len() == 16,
            started.1@ == FrameModel::signed_by(sig_key@, started.0@).datagram(),
    {
        Probe::with_nonce(sig_key, random_nonce())
    }

    /// Ends the probe with what the wait brought. The probe is used up: there
    /// is no second try inside it.
    pub fn conclude(self, outcome: ProbeOutcome) -> (r: Result<NodeId, DiscoveryError>)
        ensures
            match probe_result(self@, outcome@) {
                Ok(id) => r.is_ok() && r.unwrap()@ == id,
                Err(e) => r.is_err() && r.unwrap_err() == e,
            },
    {
        match outcome {
            ProbeOutcome::TimedOut => Err(DiscoveryError::Timeout),
            ProbeOutcome::Failed => Err(DiscoveryError::Io),
            ProbeOutcome::Answered(datagram) => {
                let answer = match WhoAmIResp::from_buf(datagram.as_slice()) {
                    Ok(answer) => answer,
                    Err(e) => { return Err(DiscoveryError::Postcard(e)); },
                };
                match answer.verify(self.nonce) {
                    Ok(_) => Ok(NodeId::from_key(&answer.server_key)),
                    Err(e) => Err(e),
                }
            },
        }
    }
}

/// An honest exchange succeeds: when the responder's step is applied to a
/// probe's question and the probe is given the reply, the probe ends with the
/// responder's public key. The premises are that both frames are well-formed,
/// that the stuffing library reads back what it wrote, in a buffer with
/// anything behind it, and that the signature library accepts the two
/// signatures that it made.
pub proof fn lemma_honest_exchange(
    asker: Seq<u8>,
    responder: Seq<u8>,
    nonce: Seq<u8>,
    behind_question: Seq<u8>,
    behind_answer: Seq<u8>,
)
    requires
        FrameModel::signed_by(asker, nonce).well_formed(),
        FrameModel::signed_by(responder, nonce).well_formed(),
        FrameModel::signed_by(asker, nonce).authentic(),
        FrameModel::signed_by(responder, nonce).authentic(),
        cobs_decoding(FrameModel::signed_by(asker, nonce).datagram() + behind_question) == Some(
            FrameModel::signed_by(asker, nonce).encoding(),
        ),
        cobs_decoding(FrameModel::signed_by(responder, nonce).datagram() + behind_answer) == Some(
            FrameModel::signed_by(responder, nonce).encoding(),
        ),
    ensures
        reply_to(FrameModel::signed_by(asker, nonce).datagram() + behind_question, responder)
            == Some(FrameModel::signed_by(responder, nonce).datagram()),
        probe_result(
            nonce,
            OutcomeModel::Answered(
                FrameModel::signed_by(responder, nonce).datagram() + behind_answer,
            ),
        ) == Ok::<Seq<u8>, DiscoveryError>(ed25519_public_key(responder)),
{
    let question = FrameModel::signed_by(asker, nonce);
    let answer = FrameModel::signed_by(responder, nonce);
    question.lemma_round_trip(Seq::empty());
    assert(question.encoding() + Seq::<u8>::empty() =~= question.encoding());
    answer.lemma_round_trip(Seq::empty());
    assert(answer.encoding() + Seq::<u8>::empty() =~= answer.encoding());
}

/// A probe whose wait ran out ends in `Timeout`, whatever nonce it sent.
pub proof fn lemma_silence_is_timeout(nonce: Seq<u8>)
    ensures
        probe_result(nonce, OutcomeModel::TimedOut) == Err::<Seq<u8>, DiscoveryError>(
            DiscoveryError::Timeout,
        ),
{
}

/// A probe accepts an answer only if it carries the probe's own nonce.
pub proof fn lemma_accepted_answer_has_nonce(nonce: Seq<u8>, datagram: Seq<u8>)
    requires
        probe_result(nonce, OutcomeModel::Answered(datagram)) is Ok,
    ensures
        FrameModel::unstuffing(datagram) matches Ok(answer) && answer.nonce == nonce
            && answer.authentic(),
{
}

/// The address of a peer: an IPv4 address as a 32-bit number, and a port.
#[derive(Clone, Copy, Debug, PartialEq, Eq, Hash, Structural)]
pub struct PeerAddr {
    pub ip: u32,
    pub port: u16,
}

/// `found` with the addresses of `batch` that it lacks, each once, in the
/// order in which they come.
pub open spec fn merged(found: Seq<PeerAddr>, batch: Seq<PeerAddr>) -> Seq<PeerAddr>
    decreases batch.len(),
{
    if batch.len() == 0 {
        found
    } else if found.contains(batch[0]) {
        merged(found, batch.skip(1))
    } else {
        merged(found.push(batch[0]), batch.skip(1))
    }
}

/// Merging keeps what was found, in place, and adds nothing twice.
pub proof fn lemma_merged_extends(found: Seq<PeerAddr>, batch: Seq<PeerAddr>)
    requires
        found.no_duplicates(),
    ensures
        merged(found, batch).no_duplicates(),
        found.len() <= merged(found, batch).len() <= found.len() + batch.len(),
        merged(found, batch).subrange(0, found.len() as int) == found,
    decreases batch.len(),
{
    if batch.len() > 0 {
        let next = if found.contains(batch[0]) {
            found
        } else {
            found.push(batch[0])
        };
        lemma_merged_extends(next, batch.skip(1));
        assert(merged(found, batch).subrange(0, found.len() as int) =~= next.subrange(
            0,
            found.len() as int,
        ));
        assert(next.subrange(0, found.len() as int) =~= found);
    } else {
        assert(found.subrange(0, found.len() as int) =~= found);
    }
}

/// The merged addresses are those found before and those of the batch, and
/// no others.
pub proof fn lemma_merged_contents(found: Seq<PeerAddr>, batch: Seq<PeerAddr>, peer: PeerAddr)
    ensures
        merged(found, batch).contains(peer) <==> found.contains(peer) || batch.contains(peer),
    decreases batch.len(),
{
    if batch.len() > 0 {
        let first = batch[0];
        let next = if found.contains(first) {
            found
        } else {
            found.push(first)
        };
        lemma_merged_contents(next, batch.skip(1), peer);
        if batch.contains(peer) {
            let i = choose|i: int| 0 <= i < batch.len() && batch[i] == peer;
            if i > 0 {
                assert(batch.skip(1)[i - 1] == peer);
            }
        }
        if batch.skip(1).contains(peer) {
            let i = choose|i: int| 0 <= i < batch.skip(1).len() && batch.skip(1)[i] == peer;
            assert(batch[i + 1] == peer);
        }
        if !found.contains(first) {
            assert(next.last() == first);
            assert(forall|i: int| 0 <= i < found.len() ==> next[i] == found[i]);
            if next.contains(peer) && peer != first {
                let i = choose|i: int| 0 <= i < next.len() && next[i] == peer;
                assert(found[i] == peer);
            }
            if found.contains(peer) {
                let i = choose|i: int| 0 <= i < found.len() && found[i] == peer;
                assert(next[i] == peer);
            }
        }
    }
}

/// Whether `peer` is among `found`.
fn holds(found: &Vec<PeerAddr>, peer: PeerAddr) -> (present: bool)
    ensures
        present == found@.contains(peer),
{
    let mut i: usize = 0;
    while i < found.len()
        invariant
            i <= found@.len(),
            forall|j: int| 0 <= j < i ==> found@[j] != peer,
        decreases found@.len() - i,
    {
        if found[i] == peer {
            return true;
        }
        i += 1;
    }
    false
}

/// The addresses collected for one lookup: each at most once, in the order
/// in which they first came, together with the lookup's two bounds.
pub struct PeerCollector {
    target: usize,
    timeout: u64,
    found: Vec<PeerAddr>,
}

impl PeerCollector {
    /// No address is held twice.
    pub closed spec fn well_formed(self) -> bool {
        self.found@.no_duplicates()
    }

    /// The addresses collected so far.
    pub closed spec fn peers(self) -> Seq<PeerAddr> {
        self.found@
    }

    /// The number of addresses at which collecting stops.
    pub closed spec fn target(self) -> nat {
        self.target as nat
    }

    /// The time allowed for the whole lookup.
    pub closed spec fn timeout(self) -> nat {
        self.timeout as nat
    }

    /// An empty collection that stops at `target` addresses or after
    /// `timeout`, whichever comes first. Times are in one unit throughout,
    /// counted from the start of the lookup.
    pub fn new(target: usize, timeout: u64) -> (collector: PeerCollector)
        ensures
            collector.well_formed(),
            collector.peers() == Seq::<PeerAddr>::empty(),
            collector.target() == target,
            collector.timeout() == timeout,
    {
        PeerCollector { target, timeout, found: Vec::new() }
    }

    /// How long the next fetch may take at most when `elapsed` has gone by:
    /// what is left of the timeout, and nothing once it is used up.
    pub fn budget(&self, elapsed: u64) -> (wait: u64)
        ensures
            wait == if elapsed >= self.timeout() {
                0
            } else {
                self.timeout() - elapsed
            },
    {
        if elapsed >= self.timeout {
            0
        } else {
            self.timeout - elapsed
        }
    }

    /// Takes in one batch of addresses, leaving out those already held, and
    /// says whether to fetch again: not once the target is reached, and not
    /// once the timeout has gone by.
    pub fn absorb(&mut self, batch: &[PeerAddr], elapsed: u64) -> (again: bool)
        requires
            old(self).well_formed(),
        ensures
            final(self).well_formed(),
            final(self).peers() == merged(old(self).peers(), batch@),
            final(self).target() == old(self).target(),
            final(self).timeout() == old(self).timeout(),
            again == (final(self).peers().len() < old(self).target() && elapsed < old(
                self,
            ).timeout()),
    {
        let mut i: usize = 0;
        assert(batch@.skip(0) =~= batch@);
        while i < batch.len()
            invariant
                i <= batch@.len(),
                self.found@.no_duplicates(),
                self.target == old(self).target,
                self.timeout == old(self).timeout,
                merged(self.found@, batch@.skip(i as int)) == merged(old(self).found@, batch@),
            decreases batch@.len() - i,
        {
            let peer = batch[i];
            let ghost before = self.found@;
            assert(batch@.skip(i as int).skip(1) =~= batch@.skip(i + 1));
            if !holds(&self.found, peer) {
                self.found.push(peer);
                assert(self.found@ =~= before.push(peer));
            }
            i += 1;
        }
        self.found.len() < self.target && elapsed < self.timeout
    }

    /// The number of addresses collected so far.
    pub fn len(&self) -> (n: usize)
        ensures
            n == self.peers().len(),
    {
        self.found.len()
    }

    /// Ends the lookup: the addresses collected, none of them twice.
    pub fn into_peers(self) -> (peers: Vec<PeerAddr>)
        requires
            self.well_formed(),
        ensures
            peers@ == self.peers(),
            peers@.no_duplicates(),
    {
        self.found
    }
}

/// What the announce loop does after one announcement.
#[derive(Clone, Copy, Debug, PartialEq, Eq, Structural)]
pub struct AfterAnnounce {
    /// Whether a failure is to be reported.
    pub report: bool,
    /// How long to rest before announcing again.
    pub rest: u64,
}

/// The announce loop's step: a failed announcement is reported, and either
/// way the loop rests for `period` and announces again. It never ends itself.
pub fn after_announce(announced: bool, period: u64) -> (step: AfterAnnounce)
    ensures
        step.report == !announced,
        step.rest == period,
{
    AfterAnnounce { report: !announced, rest: period }
}

} // verus!
