use std::collections::BTreeSet;

use liboo::config::{
    compare_keys, parse_friend, parse_friends, parse_salt, render_salt, secret_for, FriendSet,
    KeyOrder,
};
use liboo::error::ConfigError;
use liboo::identity::{NodeId, SigningKey};

fn id_of(seed: u8) -> NodeId {
    NodeId::from_key(&SigningKey::from_bytes(&[seed; 32]).verifying_key())
}

fn text_of(id: &NodeId) -> String {
    bs58::encode(id.as_bytes()).into_string()
}

fn off_curve() -> [u8; 32] {
    for low in 0..=255u8 {
        let mut raw = [0u8; 32];
        raw[0] = low;
        if ed25519_dalek::VerifyingKey::from_bytes(&raw).is_err() {
            return raw;
        }
    }
    panic!("every candidate is on the curve");
}

// The list as the standard library's own tools read it.
fn reference(content: &str) -> Option<Vec<[u8; 32]>> {
    let mut set = BTreeSet::new();
    for line in content.lines() {
        let line = line.trim();
        if line.is_empty() || line.starts_with('#') {
            continue;
        }
        let decoded: [u8; 32] = bs58::decode(line.as_bytes()).into_array_const().ok()?;
        ed25519_dalek::VerifyingKey::from_bytes(&decoded).ok()?;
        set.insert(decoded);
    }
    Some(set.into_iter().collect())
}

fn ours(content: &str) -> Option<Vec<[u8; 32]>> {
    let friends = parse_friends(content).ok()?;
    Some(friends.into_vec().iter().map(|id| *id.as_bytes()).collect())
}

#[test]
fn keys_compare_as_their_bytes() {
    let low = NodeId::from_bytes(&id_of(1).as_bytes().clone()).unwrap();
    assert_eq!(compare_keys(&low, &low), KeyOrder::Same);
    for a in 0..20u8 {
        for b in 0..20u8 {
            let (x, y) = (id_of(a), id_of(b));
            let expected = match x.as_bytes().cmp(y.as_bytes()) {
                std::cmp::Ordering::Less => KeyOrder::Before,
                std::cmp::Ordering::Equal => KeyOrder::Same,
                std::cmp::Ordering::Greater => KeyOrder::After,
            };
            assert_eq!(compare_keys(&x, &y), expected);
        }
    }
}

#[test]
fn a_friend_is_read_from_its_text() {
    let id = id_of(3);
    assert_eq!(parse_friend(&text_of(&id)), Ok(id));
}

#[test]
fn a_friend_entry_that_is_no_key_is_refused() {
    assert_eq!(parse_friend("0OIl"), Err(ConfigError::Base58));
    assert_eq!(parse_friend("not base58!"), Err(ConfigError::Base58));
    assert_eq!(parse_friend("caf\u{00E9}"), Err(ConfigError::Base58));
    // thirty-three bytes do not fit
    let long = bs58::encode([0xFFu8; 33]).into_string();
    assert_eq!(parse_friend(&long), Err(ConfigError::Base58));
    let bad = bs58::encode(off_curve()).into_string();
    assert_eq!(parse_friend(&bad), Err(ConfigError::InvalidKey));
}

#[test]
fn a_short_entry_is_read_as_the_decoder_reads_it() {
    let theirs: [u8; 32] = bs58::decode("2".as_bytes()).into_array_const().unwrap();
    let expected = match ed25519_dalek::VerifyingKey::from_bytes(&theirs) {
        Ok(_) => Ok(NodeId::from_bytes(&theirs).unwrap()),
        Err(_) => Err(ConfigError::InvalidKey),
    };
    assert_eq!(parse_friend("2"), expected);
}

#[test]
fn a_list_is_read_line_by_line() {
    let (a, b, c) = (id_of(1), id_of(2), id_of(3));
    let content = format!(
        "# my friends\n{}\n\n   {}  \r\n\t# {}\n{}\n{}",
        text_of(&a),
        text_of(&b),
        text_of(&c),
        text_of(&a),
        text_of(&b)
    );
    let friends = parse_friends(&content).unwrap();
    assert_eq!(friends.len(), 2);
    let mut expected = vec![a, b];
    expected.sort_by(|x, y| x.as_bytes().cmp(y.as_bytes()));
    assert_eq!(friends.into_vec(), expected);
}

#[test]
fn a_list_agrees_with_the_reference_reading() {
    let (a, b, c, d) = (id_of(1), id_of(2), id_of(3), id_of(4));
    let bad = bs58::encode(off_curve()).into_string();
    let contents = vec![
        String::new(),
        "\n\n".to_string(),
        "# nothing\n".to_string(),
        format!("{}\n{}\n{}\n{}\n", text_of(&d), text_of(&c), text_of(&b), text_of(&a)),
        format!("{}\r\n{}\r\n", text_of(&a), text_of(&a)),
        format!("\u{00A0}{}\u{3000}\n", text_of(&b)),
        format!("{}\nzz zz\n", text_of(&a)),
        format!("{} # trailing\n", text_of(&a)),
        format!("{}\n{}\n", text_of(&a), bad),
        format!("#{}\n", bad),
        "2\n".to_string(),
        "1\n".to_string(),
        format!("{}", text_of(&c)),
    ];
    for content in contents {
        assert_eq!(ours(&content), reference(&content), "{:?}", content);
    }
}

#[test]
fn a_list_fails_on_its_first_bad_line() {
    let bad = bs58::encode(off_curve()).into_string();
    let content = format!("{}\n{}\n!!\n", text_of(&id_of(1)), bad);
    assert_eq!(parse_friends(&content), Err(ConfigError::InvalidKey));
    let content = format!("{}\n!!\n{}\n", text_of(&id_of(1)), bad);
    assert_eq!(parse_friends(&content), Err(ConfigError::Base58));
}

#[test]
fn friends_are_kept_once_and_in_order() {
    let mut friends = FriendSet::new();
    let mut reference = BTreeSet::new();
    for seed in [9u8, 3, 7, 3, 1, 9, 200, 0, 7] {
        friends.insert(id_of(seed));
        reference.insert(*id_of(seed).as_bytes());
    }
    assert_eq!(friends.len(), 6);
    let ours: Vec<[u8; 32]> = friends.clone().into_vec().iter().map(|id| *id.as_bytes()).collect();
    assert_eq!(ours, reference.into_iter().collect::<Vec<_>>());
}

#[test]
fn removing_a_friend_leaves_the_others() {
    let mut friends = FriendSet::new();
    for seed in 1..=5u8 {
        friends.insert(id_of(seed));
    }
    let before = friends.clone().into_vec();
    friends.remove(&id_of(3));
    assert_eq!(friends.len(), 4);
    let expected: Vec<NodeId> = before.into_iter().filter(|id| *id != id_of(3)).collect();
    assert_eq!(friends.clone().into_vec(), expected);
    friends.remove(&id_of(3));
    assert_eq!(friends.into_vec(), expected);
    let mut empty = FriendSet::new();
    empty.remove(&id_of(1));
    assert_eq!(empty.len(), 0);
}

#[test]
fn entries_are_added_trimmed() {
    let (a, b) = (id_of(1), id_of(2));
    let mut friends = FriendSet::new();
    friends.insert(a);
    let entries = vec![format!("  {} \n", text_of(&b)), String::new(), "   ".to_string(), text_of(&a)];
    let friends = friends.with_entries(&entries).unwrap();
    let mut expected = vec![a, b];
    expected.sort_by(|x, y| x.as_bytes().cmp(y.as_bytes()));
    assert_eq!(friends.into_vec(), expected);
}

#[test]
fn a_bad_entry_fails_the_addition() {
    let entries = vec![text_of(&id_of(1)), "# not a comment here".to_string()];
    assert_eq!(FriendSet::new().with_entries(&entries), Err(ConfigError::Base58));
    let entries = vec![bs58::encode(off_curve()).into_string()];
    assert_eq!(FriendSet::new().with_entries(&entries), Err(ConfigError::InvalidKey));
    assert_eq!(FriendSet::new().with_entries(&[]), Ok(FriendSet::new()));
}

#[test]
fn a_list_is_written_one_friend_a_line() {
    let mut friends = FriendSet::new();
    assert_eq!(friends.render(), "");
    for seed in [5u8, 1, 3] {
        friends.insert(id_of(seed));
    }
    let mut ids = vec![id_of(5), id_of(1), id_of(3)];
    ids.sort_by(|x, y| x.as_bytes().cmp(y.as_bytes()));
    let expected: String = ids.iter().map(|id| text_of(id) + "\n").collect();
    assert_eq!(friends.render(), expected);
    assert_eq!(parse_friends(&friends.render()), Ok(friends));
}

#[test]
fn base58_follows_the_known_example() {
    // the bytes 04 30 5e 2b 24 73 f0 58 are written "he11owor1d"
    let mut raw = [0u8; 32];
    raw[..8].copy_from_slice(&[0x04, 0x30, 0x5e, 0x2b, 0x24, 0x73, 0xf0, 0x58]);
    assert_eq!(parse_salt("he11owor1d"), Ok(raw));
    assert_eq!(render_salt(&[0u8; 32]), "1".repeat(32) + "\n");
}

#[test]
fn a_salt_is_read_back_as_it_was_written() {
    let salt = [0xABu8; 32];
    let text = render_salt(&salt);
    assert_eq!(text, bs58::encode(salt).into_string() + "\n");
    assert_eq!(parse_salt(&text), Ok(salt));
    assert_eq!(parse_salt(&format!("\n  {}\t\r\n", text)), Ok(salt));
    let mut other = [0u8; 32];
    for (i, byte) in other.iter_mut().enumerate() {
        *byte = i as u8;
    }
    assert_eq!(parse_salt(&render_salt(&other)), Ok(other));
}

#[test]
fn a_salt_that_is_no_base58_is_refused() {
    assert_eq!(parse_salt("l0l"), Err(ConfigError::Base58));
    assert_eq!(parse_salt(&bs58::encode([1u8; 33]).into_string()), Err(ConfigError::Base58));
    let empty: [u8; 32] = bs58::decode("".as_bytes()).into_array_const().unwrap();
    assert_eq!(parse_salt("  \n"), Ok(empty));
}

#[test]
fn the_secret_is_the_digest_of_name_and_salt() {
    let salt = [7u8; 32];
    let theirs = blake3::Hasher::new().update("alice".as_bytes()).update(&salt).finalize();
    assert_eq!(secret_for("alice", &salt).to_bytes(), *theirs.as_bytes());
    let mut joined = "alice".as_bytes().to_vec();
    joined.extend_from_slice(&salt);
    assert_eq!(secret_for("alice", &salt).to_bytes(), *blake3::hash(&joined).as_bytes());
    assert_ne!(secret_for("alice", &salt).to_bytes(), secret_for("bob", &salt).to_bytes());
    assert_ne!(secret_for("alice", &salt).to_bytes(), secret_for("alice", &[8u8; 32]).to_bytes());
    assert_eq!(secret_for("", &salt).to_bytes(), *blake3::hash(&salt).as_bytes());
}
