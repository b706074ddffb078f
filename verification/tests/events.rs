use ed25519_dalek::Signer;
use liboo::chat_event::{
    receive_event, shown_name, sign_chat_event, sign_with_nonce, ChatEvent, ChatEventBody,
    ChatEventBuilder, SignedChatEvent,
};
use liboo::error::SignatureError;
use liboo::identity::{NodeId, Signature, SigningKey, VerifyingKey};
use liboo::wire::WireError;

fn secret_a() -> SigningKey {
    SigningKey::from_bytes(&[7u8; 32])
}

fn secret_b() -> SigningKey {
    SigningKey::from_bytes(&[8u8; 32])
}

fn message(name: &str, text: &str) -> ChatEventBody {
    ChatEventBody::NewMessage { name: name.to_string(), message: text.to_string() }
}

fn flip(bytes: &[u8], index: usize) -> Vec<u8> {
    let mut out = bytes.to_vec();
    out[index] ^= 0x01;
    out
}

#[test]
fn scenario_alice_says_hi() {
    let key = secret_a();
    let signed = ChatEvent::builder().new_message("alice", "hi").sign(&key);
    let event = signed.verify_into();
    let expected = ChatEvent::NewMessage {
        actor: NodeId::from_key(&key.verifying_key()),
        name: "alice".to_string(),
        message: "hi".to_string(),
    };
    assert_eq!(event, Ok(expected));
}

#[test]
fn builder_new_is_the_initial_stage() {
    let signed = ChatEventBuilder::new().node_joined().sign(&secret_a());
    assert_eq!(signed.body_bytes(), &vec![2u8]);
}

#[test]
fn round_trip_for_every_variant() {
    let key = secret_b();
    let actor = NodeId::from_key(&key.verifying_key());
    let cases = vec![
        (
            message("bob", "hello there"),
            ChatEvent::NewMessage {
                actor,
                name: "bob".to_string(),
                message: "hello there".to_string(),
            },
        ),
        (
            ChatEventBody::SetName { name: "robert".to_string() },
            ChatEvent::SetName { actor, name: "robert".to_string() },
        ),
        (ChatEventBody::NodeJoined, ChatEvent::NodeJoined { actor }),
        (ChatEventBody::NodeLeft, ChatEvent::NodeLeft { actor }),
    ];
    for (body, expected) in cases {
        let signed = sign_chat_event(body, &key);
        assert_eq!(signed.verify_into(), Ok(expected));
    }
}

#[test]
fn round_trip_keeps_empty_and_multibyte_strings() {
    let key = secret_a();
    let actor = NodeId::from_key(&key.verifying_key());
    let signed = ChatEvent::builder().new_message("", "tudo bem? \u{1F600} \u{00E7}").sign(&key);
    assert_eq!(
        signed.verify_into(),
        Ok(ChatEvent::NewMessage {
            actor,
            name: String::new(),
            message: "tudo bem? \u{1F600} \u{00E7}".to_string(),
        })
    );
}

#[test]
fn builder_stages_sign_their_payload() {
    let key = secret_a();
    let set_name = ChatEvent::builder().set_name("carol").sign(&key);
    assert_eq!(set_name.body_bytes(), &vec![1u8, 5, b'c', b'a', b'r', b'o', b'l']);
    let joined = ChatEvent::builder().node_joined().sign(&key);
    assert_eq!(joined.body_bytes(), &vec![2u8]);
    let left = ChatEvent::builder().node_left().sign(&key);
    assert_eq!(left.body_bytes(), &vec![3u8]);
    assert_eq!(left.key(), key.verifying_key());
}

#[test]
fn actor_is_the_signer_for_every_variant() {
    let key = secret_b();
    let id = NodeId::from_key(&key.verifying_key());
    let events = vec![
        ChatEvent::builder().new_message("n", "m").sign(&key),
        ChatEvent::builder().set_name("n").sign(&key),
        ChatEvent::builder().node_joined().sign(&key),
        ChatEvent::builder().node_left().sign(&key),
    ];
    for signed in events {
        assert_eq!(signed.verify_into().unwrap().actor(), id);
    }
}

#[test]
fn body_wire_form_is_exact() {
    assert_eq!(
        message("alice", "hi").to_bytes(),
        vec![0u8, 5, b'a', b'l', b'i', b'c', b'e', 2, b'h', b'i']
    );
    assert_eq!(
        ChatEventBody::SetName { name: "\u{00E9}".to_string() }.to_bytes(),
        vec![1u8, 2, 0xC3, 0xA9]
    );
    assert_eq!(ChatEventBody::NodeJoined.to_bytes(), vec![2u8]);
    assert_eq!(ChatEventBody::NodeLeft.to_bytes(), vec![3u8]);
}

#[test]
fn long_string_has_a_two_byte_length() {
    let name = "x".repeat(300);
    let bytes = ChatEventBody::SetName { name: name.clone() }.to_bytes();
    assert_eq!(bytes.len(), 1 + 2 + 300);
    assert_eq!(&bytes[..3], &[1u8, 0xAC, 0x02][..]);
    assert_eq!(ChatEventBody::from_bytes(&bytes), Ok(ChatEventBody::SetName { name }));
}

#[test]
fn body_wire_form_agrees_with_postcard() {
    let ours = message("alice", "hi \u{1F600}").to_bytes();
    let theirs = postcard::to_allocvec(&(0u32, "alice", "hi \u{1F600}")).unwrap();
    assert_eq!(ours, theirs);
    let ours = ChatEventBody::SetName { name: "y".repeat(20000) }.to_bytes();
    let theirs = postcard::to_allocvec(&(1u32, "y".repeat(20000))).unwrap();
    assert_eq!(ours, theirs);
    assert_eq!(ChatEventBody::NodeLeft.to_bytes(), postcard::to_allocvec(&3u32).unwrap());
}

#[test]
fn body_decoding_reads_what_encoding_wrote() {
    let bodies = vec![
        message("alice", "hi"),
        message("", ""),
        ChatEventBody::SetName { name: "bob".to_string() },
        ChatEventBody::NodeJoined,
        ChatEventBody::NodeLeft,
    ];
    for body in bodies {
        assert_eq!(ChatEventBody::from_bytes(&body.to_bytes()), Ok(body));
    }
}

#[test]
fn body_decoding_ignores_trailing_bytes() {
    let mut bytes = message("a", "b").to_bytes();
    bytes.extend_from_slice(&[9, 9, 9]);
    assert_eq!(ChatEventBody::from_bytes(&bytes), Ok(message("a", "b")));
    assert_eq!(ChatEventBody::from_bytes(&[2, 0xFF]), Ok(ChatEventBody::NodeJoined));
}

#[test]
fn body_decoding_accepts_a_padded_tag() {
    assert_eq!(ChatEventBody::from_bytes(&[0x82, 0x00]), Ok(ChatEventBody::NodeJoined));
    assert_eq!(
        ChatEventBody::from_bytes(&[0x83, 0x80, 0x80, 0x80, 0x00]),
        Ok(ChatEventBody::NodeLeft)
    );
    assert_eq!(postcard::from_bytes::<u32>(&[0x83, 0x80, 0x80, 0x80, 0x00]), Ok(3));
}

#[test]
fn body_decoding_errors() {
    assert_eq!(ChatEventBody::from_bytes(&[]), Err(WireError::UnexpectedEnd));
    assert_eq!(ChatEventBody::from_bytes(&[0x80]), Err(WireError::UnexpectedEnd));
    assert_eq!(ChatEventBody::from_bytes(&[4]), Err(WireError::UnknownVariant));
    assert_eq!(ChatEventBody::from_bytes(&[0xAC, 0x02]), Err(WireError::UnknownVariant));
    // five bytes whose last is over fifteen, and six bytes, overflow 32 bits
    assert_eq!(
        ChatEventBody::from_bytes(&[0x80, 0x80, 0x80, 0x80, 0x10]),
        Err(WireError::BadVarint)
    );
    assert_eq!(
        ChatEventBody::from_bytes(&[0x80, 0x80, 0x80, 0x80, 0x80, 0x00]),
        Err(WireError::BadVarint)
    );
    // a name that is announced longer than the input
    assert_eq!(ChatEventBody::from_bytes(&[1, 3, b'a', b'b']), Err(WireError::UnexpectedEnd));
    // a message that is missing
    assert_eq!(ChatEventBody::from_bytes(&[0, 1, b'a']), Err(WireError::UnexpectedEnd));
    // a length of ten bytes whose last is over one overflows 64 bits
    assert_eq!(
        ChatEventBody::from_bytes(&[1, 0xFF, 0xFF, 0xFF, 0xFF, 0xFF, 0xFF, 0xFF, 0xFF, 0xFF, 0x02]),
        Err(WireError::BadVarint)
    );
    // the largest length is well-formed but no input is that long
    assert_eq!(
        ChatEventBody::from_bytes(&[1, 0xFF, 0xFF, 0xFF, 0xFF, 0xFF, 0xFF, 0xFF, 0xFF, 0xFF, 0x01]),
        Err(WireError::UnexpectedEnd)
    );
    assert_eq!(ChatEventBody::from_bytes(&[1, 2, 0xC3, 0x28]), Err(WireError::BadUtf8));
    assert_eq!(ChatEventBody::from_bytes(&[1, 1, 0xFF]), Err(WireError::BadUtf8));
}

#[test]
fn body_decoding_refuses_what_postcard_refuses() {
    let inputs: Vec<Vec<u8>> = vec![
        vec![],
        vec![1, 3, b'a', b'b'],
        vec![1, 2, 0xC3, 0x28],
        vec![1, 0xFF, 0xFF, 0xFF, 0xFF, 0xFF, 0xFF, 0xFF, 0xFF, 0xFF, 0x02],
        vec![1, 2, 0xC3, 0xA9],
        vec![1, 0x81, 0x00, b'z'],
    ];
    for input in inputs {
        let ours = ChatEventBody::from_bytes(&input);
        let theirs = postcard::from_bytes::<(u32, String)>(&input);
        match (ours, theirs) {
            (Ok(ChatEventBody::SetName { name }), Ok((1, text))) => assert_eq!(name, text),
            (Err(WireError::UnexpectedEnd), Err(postcard::Error::DeserializeUnexpectedEnd)) => {}
            (Err(WireError::BadUtf8), Err(postcard::Error::DeserializeBadUtf8)) => {}
            (Err(WireError::BadVarint), Err(postcard::Error::DeserializeBadVarint)) => {}
            (ours, theirs) => panic!("{:?} against {:?} on {:?}", ours, theirs, input),
        }
    }
}

#[test]
fn signing_with_a_nonce_is_exact() {
    let key = secret_a();
    let nonce = [5u8; 16];
    let signed = sign_with_nonce(message("alice", "hi"), &key, nonce);
    let body = message("alice", "hi").to_bytes();
    assert_eq!(signed.body_bytes(), &body);
    assert_eq!(signed.nonce(), nonce);
    assert_eq!(signed.key(), key.verifying_key());
    let mut signed_bytes = body.clone();
    signed_bytes.extend_from_slice(&nonce);
    assert_eq!(signed.sig(), key.sign(&signed_bytes));
    // the signature covers the nonce: the body alone does not verify
    assert!(key.verifying_key().verify_strict(&signed_bytes, &signed.sig()));
    assert!(!key.verifying_key().verify_strict(&body, &signed.sig()));
}

#[test]
fn signing_agrees_with_the_signature_library() {
    let seed = [7u8; 32];
    let nonce = [1u8; 16];
    let signed = sign_with_nonce(ChatEventBody::NodeJoined, &SigningKey::from_bytes(&seed), nonce);
    let theirs = ed25519_dalek::SigningKey::from_bytes(&seed);
    let mut signed_bytes = vec![2u8];
    signed_bytes.extend_from_slice(&nonce);
    assert_eq!(signed.sig().to_bytes(), theirs.sign(&signed_bytes).to_bytes());
    assert_eq!(signed.key().to_bytes(), theirs.verifying_key().to_bytes());
}

#[test]
fn each_signing_draws_a_fresh_nonce() {
    let key = secret_a();
    let first = sign_chat_event(ChatEventBody::NodeJoined, &key);
    let second = sign_chat_event(ChatEventBody::NodeJoined, &key);
    assert_ne!(first.nonce(), second.nonce());
    assert_ne!(first.sig(), second.sig());
    assert_eq!(first.body_bytes(), second.body_bytes());
}

#[test]
fn a_replayed_event_verifies_again() {
    let signed = sign_chat_event(message("a", "b"), &secret_a());
    let copy = SignedChatEvent::from_bytes(&signed.to_vec()).unwrap();
    assert_eq!(copy.clone().verify_into(), signed.verify_into());
    assert!(copy.verify_into().is_ok());
}

#[test]
fn signed_wire_form_is_exact() {
    let key = secret_a();
    let signed = sign_with_nonce(ChatEventBody::NodeLeft, &key, [9u8; 16]);
    let bytes = signed.to_vec();
    let mut expected = vec![1u8, 3];
    expected.extend_from_slice(&[9u8; 16]);
    expected.push(32);
    expected.extend_from_slice(&key.verifying_key().to_bytes());
    expected.extend_from_slice(&signed.sig().to_bytes());
    assert_eq!(bytes, expected);
    assert_eq!(bytes.len(), 2 + 16 + 33 + 64);
}

#[test]
fn signed_wire_form_agrees_with_postcard() {
    let seed = [7u8; 32];
    let signed = sign_with_nonce(message("alice", "hi"), &SigningKey::from_bytes(&seed), [3u8; 16]);
    let key = ed25519_dalek::VerifyingKey::from_bytes(&signed.key().to_bytes()).unwrap();
    let sig = ed25519_dalek::Signature::from_bytes(&signed.sig().to_bytes());
    let theirs =
        postcard::to_allocvec(&(signed.body_bytes().clone(), signed.nonce(), key, sig)).unwrap();
    assert_eq!(signed.to_vec(), theirs);
    let back: (Vec<u8>, [u8; 16], ed25519_dalek::VerifyingKey, ed25519_dalek::Signature) =
        postcard::from_bytes(&signed.to_vec()).unwrap();
    assert_eq!(&back.0, signed.body_bytes());
    assert_eq!(back.1, signed.nonce());
    assert_eq!(back.2.to_bytes(), signed.key().to_bytes());
    assert_eq!(back.3.to_bytes(), signed.sig().to_bytes());
}

#[test]
fn signed_wire_round_trip_is_byte_exact() {
    let signed = sign_chat_event(message("alice", "hi"), &secret_b());
    let bytes = signed.to_vec();
    let back = SignedChatEvent::from_bytes(&bytes).unwrap();
    assert_eq!(back, signed);
    assert_eq!(back.to_vec(), bytes);
    let mut longer = bytes.clone();
    longer.extend_from_slice(&[1, 2, 3]);
    assert_eq!(SignedChatEvent::from_bytes(&longer), Ok(signed));
}

#[test]
fn signed_decoding_errors() {
    let signed = sign_with_nonce(ChatEventBody::NodeJoined, &secret_a(), [0u8; 16]);
    let bytes = signed.to_vec();
    assert_eq!(SignedChatEvent::from_bytes(&[]), Err(WireError::UnexpectedEnd));
    for cut in 0..bytes.len() {
        assert_eq!(
            SignedChatEvent::from_bytes(&bytes[..cut]),
            Err(WireError::UnexpectedEnd),
            "cut at {}",
            cut
        );
    }
    // the key's length byte is at 2 + 16
    let mut short_key = bytes.clone();
    short_key[18] = 31;
    assert_eq!(SignedChatEvent::from_bytes(&short_key), Err(WireError::InvalidKey));
    let mut long_key = bytes.clone();
    long_key[18] = 33;
    assert_eq!(SignedChatEvent::from_bytes(&long_key), Err(WireError::InvalidKey));
    let mut bad_length = bytes.clone();
    bad_length.splice(0..1, vec![0xFF, 0xFF, 0xFF, 0xFF, 0xFF, 0xFF, 0xFF, 0xFF, 0xFF, 0x7F]);
    assert_eq!(SignedChatEvent::from_bytes(&bad_length), Err(WireError::BadVarint));
}

#[test]
fn a_key_off_the_curve_is_refused_on_the_wire() {
    let signed = sign_with_nonce(ChatEventBody::NodeJoined, &secret_a(), [0u8; 16]);
    let bytes = signed.to_vec();
    let mut seen_refusal = false;
    for low in 0..=255u8 {
        let mut raw = [0u8; 32];
        raw[0] = low;
        let mut forged = bytes.clone();
        forged[19..51].copy_from_slice(&raw);
        let theirs = ed25519_dalek::VerifyingKey::from_bytes(&raw).is_ok();
        assert_eq!(VerifyingKey::from_bytes(&raw).is_some(), theirs);
        let ours = SignedChatEvent::from_bytes(&forged);
        if theirs {
            assert_eq!(ours.unwrap().key().to_bytes(), raw);
        } else {
            assert_eq!(ours, Err(WireError::InvalidKey));
            seen_refusal = true;
        }
    }
    assert!(seen_refusal);
}

#[test]
fn flipping_any_byte_makes_verification_fail() {
    let key = secret_a();
    let signed = sign_with_nonce(message("alice", "hi"), &key, [4u8; 16]);
    let bytes = signed.to_vec();
    let body_len = signed.body_bytes().len();
    assert_eq!(body_len, 10);
    for index in 0..bytes.len() {
        // the two length bytes frame the fields; they are not signed material
        if index == 0 || index == 1 + body_len + 16 {
            continue;
        }
        let forged = flip(&bytes, index);
        match SignedChatEvent::from_bytes(&forged) {
            Ok(event) => {
                assert_eq!(event.verify_into(), Err(SignatureError::Dalek), "byte {}", index)
            }
            // a flipped key byte may leave the curve: such a frame is no event at all
            Err(e) => {
                assert_eq!(e, WireError::InvalidKey);
                assert!(index > 1 + body_len + 16 && index < 1 + body_len + 16 + 33);
            }
        }
    }
}

#[test]
fn a_tampered_body_fails_on_the_signature_before_it_is_read() {
    let signed = sign_with_nonce(message("alice", "hi"), &secret_a(), [4u8; 16]);
    let mut bytes = signed.to_vec();
    // make the body's tag unknown: the signature is judged first
    bytes[1] = 9;
    let forged = SignedChatEvent::from_bytes(&bytes).unwrap();
    assert_eq!(forged.verify_into(), Err(SignatureError::Dalek));
}

#[test]
fn a_signed_malformed_body_is_a_decoding_error() {
    // a valid signature over bytes that are no body
    let key = secret_a();
    let nonce = [6u8; 16];
    let garbage = vec![1u8, 2, 0xC3, 0x28];
    let mut signed_bytes = garbage.clone();
    signed_bytes.extend_from_slice(&nonce);
    let sig = key.sign(&signed_bytes);
    let mut wire = vec![garbage.len() as u8];
    wire.extend_from_slice(&garbage);
    wire.extend_from_slice(&nonce);
    wire.push(32);
    wire.extend_from_slice(&key.verifying_key().to_bytes());
    wire.extend_from_slice(&sig.to_bytes());
    let event = SignedChatEvent::from_bytes(&wire).unwrap();
    assert_eq!(event.verify_into(), Err(SignatureError::Postcard(WireError::BadUtf8)));

    let unknown = vec![7u8];
    let mut signed_bytes = unknown.clone();
    signed_bytes.extend_from_slice(&nonce);
    let sig = key.sign(&signed_bytes);
    let mut wire = vec![1u8, 7];
    wire.extend_from_slice(&nonce);
    wire.push(32);
    wire.extend_from_slice(&key.verifying_key().to_bytes());
    wire.extend_from_slice(&sig.to_bytes());
    let event = SignedChatEvent::from_bytes(&wire).unwrap();
    assert_eq!(event.verify_into(), Err(SignatureError::Postcard(WireError::UnknownVariant)));

    let mut wire = vec![0u8];
    let sig = key.sign(&nonce);
    wire.extend_from_slice(&nonce);
    wire.push(32);
    wire.extend_from_slice(&key.verifying_key().to_bytes());
    wire.extend_from_slice(&sig.to_bytes());
    let event = SignedChatEvent::from_bytes(&wire).unwrap();
    assert_eq!(event.verify_into(), Err(SignatureError::Postcard(WireError::UnexpectedEnd)));
}

#[test]
fn another_key_does_not_verify() {
    let signed = sign_with_nonce(ChatEventBody::NodeJoined, &secret_a(), [4u8; 16]);
    let mut bytes = signed.to_vec();
    let other = secret_b().verifying_key().to_bytes();
    bytes[19..51].copy_from_slice(&other);
    let forged = SignedChatEvent::from_bytes(&bytes).unwrap();
    assert_eq!(forged.key(), secret_b().verifying_key());
    assert_eq!(forged.verify_into(), Err(SignatureError::Dalek));
}

#[test]
fn keys_and_signatures_follow_the_reference_vector() {
    let seed: [u8; 32] = [
        0x9d, 0x61, 0xb1, 0x9d, 0xef, 0xfd, 0x5a, 0x60, 0xba, 0x84, 0x4a, 0xf4, 0x92, 0xec, 0x2c,
        0xc4, 0x44, 0x49, 0xc5, 0x69, 0x7b, 0x32, 0x69, 0x19, 0x70, 0x3b, 0xac, 0x03, 0x1c, 0xae,
        0x7f, 0x60,
    ];
    let public: [u8; 32] = [
        0xd7, 0x5a, 0x98, 0x01, 0x82, 0xb1, 0x0a, 0xb7, 0xd5, 0x4b, 0xfe, 0xd3, 0xc9, 0x64, 0x07,
        0x3a, 0x0e, 0xe1, 0x72, 0xf3, 0xda, 0xa6, 0x23, 0x25, 0xaf, 0x02, 0x1a, 0x68, 0xf7, 0x07,
        0x51, 0x1a,
    ];
    let signature: [u8; 64] = [
        0xe5, 0x56, 0x43, 0x00, 0xc3, 0x60, 0xac, 0x72, 0x90, 0x86, 0xe2, 0xcc, 0x80, 0x6e, 0x82,
        0x8a, 0x84, 0x87, 0x7f, 0x1e, 0xb8, 0xe5, 0xd9, 0x74, 0xd8, 0x73, 0xe0, 0x65, 0x22, 0x49,
        0x01, 0x55, 0x5f, 0xb8, 0x82, 0x15, 0x90, 0xa3, 0x3b, 0xac, 0xc6, 0x1e, 0x39, 0x70, 0x1c,
        0xf9, 0xb4, 0x6b, 0xd2, 0x5b, 0xf5, 0xf0, 0x59, 0x5b, 0xbe, 0x24, 0x65, 0x51, 0x41, 0x43,
        0x8e, 0x7a, 0x10, 0x0b,
    ];
    let key = SigningKey::from_bytes(&seed);
    assert_eq!(key.to_bytes(), seed);
    assert_eq!(key.verifying_key().to_bytes(), public);
    assert_eq!(key.sign(&[]).to_bytes(), signature);
    let verifying = VerifyingKey::from_bytes(&public).unwrap();
    assert!(verifying.verify_strict(&[], &Signature::from_bytes(&signature)));
    assert!(!verifying.verify_strict(&[0], &Signature::from_bytes(&signature)));
    assert_eq!(NodeId::from_key(&verifying).as_bytes(), &public);
}

#[test]
fn strict_verification_refuses_a_key_of_small_order() {
    // the neutral element: y = 1, a point of order one
    let mut raw = [0u8; 32];
    raw[0] = 1;
    let weak = VerifyingKey::from_bytes(&raw).unwrap();
    // R = neutral element and S = 0 satisfy the group equation for every message
    let mut sig = [0u8; 64];
    sig[0] = 1;
    assert!(!weak.verify_strict(b"anything", &Signature::from_bytes(&sig)));
    let theirs = ed25519_dalek::VerifyingKey::from_bytes(&raw).unwrap();
    assert!(theirs.verify_strict(b"anything", &ed25519_dalek::Signature::from_bytes(&sig)).is_err());
}

#[test]
fn a_message_is_shown_under_its_trimmed_name() {
    assert_eq!(shown_name("alice"), Some("alice".to_string()));
    assert_eq!(shown_name("  alice b \t"), Some("alice b".to_string()));
    assert_eq!(shown_name(""), None);
    assert_eq!(shown_name(" \u{00A0}\n"), None);
    for name in ["", " ", "x", " x", "x ", "\u{2003}x y\u{2003}", "\u{200B}"] {
        let expected = if name.trim().is_empty() { None } else { Some(name.trim().to_string()) };
        assert_eq!(shown_name(name), expected);
    }
}

#[test]
fn the_hue_is_the_first_two_bytes_on_the_circle() {
    let id = NodeId::from_key(&secret_a().verifying_key());
    let bytes = id.as_bytes();
    assert_eq!(id.hue(), u16::from_be_bytes([bytes[0], bytes[1]]) % 360);
    assert!(id.hue() < 360);
    // the reference key begins d7 5a: 0xd75a = 55130 = 153 * 360 + 50
    let mut raw = [0u8; 32];
    raw[..2].copy_from_slice(&[0xd7, 0x5a]);
    raw[2..].copy_from_slice(&[
        0x98, 0x01, 0x82, 0xb1, 0x0a, 0xb7, 0xd5, 0x4b, 0xfe, 0xd3, 0xc9, 0x64, 0x07, 0x3a, 0x0e,
        0xe1, 0x72, 0xf3, 0xda, 0xa6, 0x23, 0x25, 0xaf, 0x02, 0x1a, 0x68, 0xf7, 0x07, 0x51, 0x1a,
    ]);
    assert_eq!(NodeId::from_bytes(&raw).unwrap().hue(), 50);
}

#[test]
fn an_identifier_is_a_public_key() {
    let key = secret_a().verifying_key();
    assert_eq!(NodeId::from_bytes(&key.to_bytes()), Some(NodeId::from_key(&key)));
    let mut refused = 0;
    for low in 0..=255u8 {
        let mut raw = [0u8; 32];
        raw[0] = low;
        let theirs = ed25519_dalek::VerifyingKey::from_bytes(&raw).is_ok();
        assert_eq!(NodeId::from_bytes(&raw).is_some(), theirs);
        if !theirs {
            refused += 1;
        }
    }
    assert!(refused > 0);
}

#[test]
fn a_receiver_reads_what_a_signer_sent() {
    let key = secret_b();
    let sent = ChatEvent::builder().new_message("bob", "hello").sign(&key).to_vec();
    assert_eq!(
        receive_event(&sent),
        Ok(ChatEvent::NewMessage {
            actor: NodeId::from_key(&key.verifying_key()),
            name: "bob".to_string(),
            message: "hello".to_string(),
        })
    );
}

#[test]
fn a_receiver_drops_what_it_cannot_accept() {
    let sent = sign_with_nonce(message("bob", "hello"), &secret_b(), [2u8; 16]).to_vec();
    assert_eq!(receive_event(&[]), Err(SignatureError::Postcard(WireError::UnexpectedEnd)));
    assert_eq!(
        receive_event(&sent[..sent.len() - 1]),
        Err(SignatureError::Postcard(WireError::UnexpectedEnd))
    );
    assert_eq!(receive_event(&flip(&sent, 5)), Err(SignatureError::Dalek));
    assert_eq!(receive_event(&flip(&sent, sent.len() - 1)), Err(SignatureError::Dalek));
    let mut short_key = sent.clone();
    short_key[1 + 11 + 16] = 31;
    assert_eq!(receive_event(&short_key), Err(SignatureError::Postcard(WireError::InvalidKey)));
}
