//! The stored secret and the list of friends, as text.
//!
//! Reading and writing the files is the caller's. Here are the meaning of
//! their contents and the keeping of the list: each friend once, in the
//! order of the keys' bytes.

use crate::error::ConfigError;
use crate::identity::{NodeId, SigningKey};
use crate::primitives::{
    base58_array, base58_decode, base58_encode, base58_text, blake3_digest, blake3_hash,
    ed25519_is_point,
};
use crate::text::{chars_of, lines_of, next_line, trim_bounds, trimmed};
use crate::wire::put_slice;
use vstd::prelude::*;
use vstd::string::{StrSliceExecFns, StringExecFns};
use vstd::utf8::encode_utf8;

verus! {

/// Whether `a` comes before `b` in the order of byte strings: at the first
/// place where they differ `a` has the lesser byte, or `a` ends first.
pub open spec fn key_before(a: Seq<u8>, b: Seq<u8>) -> bool
    decreases a.len(),
{
    if b.len() == 0 {
        false
    } else if a.len() == 0 {
        true
    } else if a[0] != b[0] {
        a[0] < b[0]
    } else {
        key_before(a.skip(1), b.skip(1))
    }
}

/// Byte strings that agree up to `n` are ordered as their rests are.
pub proof fn lemma_key_before_from(a: Seq<u8>, b: Seq<u8>, n: int)
    requires
        0 <= n <= a.len(),
        n <= b.len(),
        forall|i: int| 0 <= i < n ==> a[i] == b[i],
    ensures
        key_before(a, b) == key_before(a.skip(n), b.skip(n)),
    decreases n,
{
    if n > 0 {
        lemma_key_before_from(a.skip(1), b.skip(1), n - 1);
        assert(a.skip(1).skip(n - 1) =~= a.skip(n));
        assert(b.skip(1).skip(n - 1) =~= b.skip(n));
    } else {
        assert(a.skip(0) =~= a);
        assert(b.skip(0) =~= b);
    }
}

/// No byte string comes before itself.
pub proof fn lemma_key_before_irreflexive(a: Seq<u8>)
    ensures
        !key_before(a, a),
    decreases a.len(),
{
    if a.len() > 0 {
        lemma_key_before_irreflexive(a.skip(1));
    }
}

/// The order is transitive.
pub proof fn lemma_key_before_transitive(a: Seq<u8>, b: Seq<u8>, c: Seq<u8>)
    requires
        key_before(a, b),
        key_before(b, c),
    ensures
        key_before(a, c),
    decreases a.len(),
{
    if a.len() > 0 && b.len() > 0 && c.len() > 0 && a[0] == b[0] && b[0] == c[0] {
        lemma_key_before_transitive(a.skip(1), b.skip(1), c.skip(1));
    }
}

/// Of two different byte strings one comes before the other.
pub proof fn lemma_key_before_total(a: Seq<u8>, b: Seq<u8>)
    ensures
        key_before(a, b) || key_before(b, a) || a == b,
    decreases a.len(),
{
    if a.len() > 0 && b.len() > 0 && a[0] == b[0] {
        lemma_key_before_total(a.skip(1), b.skip(1));
        if a.skip(1) == b.skip(1) {
            assert(a =~= seq![a[0]] + a.skip(1));
            assert(b =~= seq![b[0]] + b.skip(1));
        }
    } else if a.len() == 0 && b.len() == 0 {
        assert(a =~= b);
    }
}

/// How two keys stand to each other.
#[derive(Clone, Copy, Debug, PartialEq, Eq, Structural)]
pub enum KeyOrder {
    Before,
    Same,
    After,
}

/// Compares two keys byte by byte.
pub fn compare_keys(a: &NodeId, b: &NodeId) -> (order: KeyOrder)
    ensures
        order == KeyOrder::Before <==> key_before(a@, b@),
        order == KeyOrder::Same <==> a@ == b@,
        order == KeyOrder::After <==> key_before(b@, a@),
{
    let x = a.as_bytes();
    let y = b.as_bytes();
    proof {
        lemma_key_before_irreflexive(a@);
        lemma_key_before_total(a@, b@);
    }
    let mut i: usize = 0;
    while i < 32
        invariant
            i <= 32,
            x@ == a@,
            y@ == b@,
            x@.len() == 32,
            y@.len() == 32,
            forall|j: int| 0 <= j < i ==> x@[j] == y@[j],
        decreases 32 - i,
    {
        if x[i] != y[i] {
            proof {
                lemma_key_before_from(a@, b@, i as int);
                lemma_key_before_from(b@, a@, i as int);
                if key_before(a@, b@) && key_before(b@, a@) {
                    lemma_key_before_transitive(a@, b@, a@);
                }
            }
            if x[i] < y[i] {
                return KeyOrder::Before;
            } else {
                return KeyOrder::After;
            }
        }
        i += 1;
    }
    assert(a@ =~= b@);
    KeyOrder::Same
}

/// `friends` with `id` put in at its place in the order, unless it is there.
pub open spec fn with_friend(friends: Seq<Seq<u8>>, id: Seq<u8>) -> Seq<Seq<u8>>
    decreases friends.len(),
{
    if friends.len() == 0 {
        seq![id]
    } else if friends[0] == id {
        friends
    } else if key_before(id, friends[0]) {
        seq![id] + friends
    } else {
        seq![friends[0]] + with_friend(friends.skip(1), id)
    }
}

/// `friends` without `id`.
pub open spec fn without_friend(friends: Seq<Seq<u8>>, id: Seq<u8>) -> Seq<Seq<u8>>
    decreases friends.len(),
{
    if friends.len() == 0 {
        friends
    } else if friends[0] == id {
        without_friend(friends.skip(1), id)
    } else {
        seq![friends[0]] + without_friend(friends.skip(1), id)
    }
}

/// Whether the keys stand in strictly rising order, so that none is there
/// twice.
pub open spec fn rising(friends: Seq<Seq<u8>>) -> bool {
    forall|i: int, j: int| 0 <= i < j < friends.len() ==> key_before(friends[i], friends[j])
}

/// Where the scan for `id` stops at `at`, the list with `id` is the list
/// itself if `id` stands there, and else the list with `id` put in there.
pub proof fn lemma_with_friend_at(friends: Seq<Seq<u8>>, id: Seq<u8>, at: int)
    requires
        0 <= at <= friends.len(),
        forall|i: int| 0 <= i < at ==> friends[i] != id && !key_before(id, friends[i]),
        at < friends.len() ==> friends[at] == id || key_before(id, friends[at]),
    ensures
        with_friend(friends, id) == if at < friends.len() && friends[at] == id {
            friends
        } else {
            friends.insert(at, id)
        },
    decreases at,
{
    if at > 0 {
        let rest = friends.skip(1);
        lemma_with_friend_at(rest, id, at - 1);
        if at < friends.len() && friends[at] == id {
            assert(seq![friends[0]] + rest =~= friends);
        } else {
            assert(seq![friends[0]] + rest.insert(at - 1, id) =~= friends.insert(at, id));
        }
    } else if friends.len() == 0 {
        assert(seq![id] =~= friends.insert(0, id));
    } else if friends[0] != id {
        assert(seq![id] + friends =~= friends.insert(0, id));
    }
}

/// Putting a friend in keeps the order, holds the friend, and holds nothing
/// else that was not there.
pub proof fn lemma_with_friend_rising(friends: Seq<Seq<u8>>, id: Seq<u8>)
    requires
        rising(friends),
    ensures
        rising(with_friend(friends, id)),
        forall|k: Seq<u8>| #[trigger]
            with_friend(friends, id).contains(k) <==> k == id || friends.contains(k),
    decreases friends.len(),
{
    let out = with_friend(friends, id);
    if friends.len() == 0 {
        assert(out[0] == id);
        assert forall|k: Seq<u8>| #[trigger] out.contains(k) <==> k == id || friends.contains(
            k,
        ) by {
            if out.contains(k) {
                let i = choose|i: int| 0 <= i < out.len() && out[i] == k;
            }
        }
    } else if friends[0] == id {
        assert(friends.contains(id));
    } else if key_before(id, friends[0]) {
        assert forall|i: int, j: int| 0 <= i < j < out.len() implies key_before(
            out[i],
            out[j],
        ) by {
            if i == 0 {
                if j > 1 {
                    lemma_key_before_transitive(id, friends[0], friends[j - 1]);
                }
            }
        }
        assert forall|k: Seq<u8>| #[trigger] out.contains(k) <==> k == id || friends.contains(
            k,
        ) by {
            if out.contains(k) {
                let i = choose|i: int| 0 <= i < out.len() && out[i] == k;
                if i > 0 {
                    assert(friends[i - 1] == k);
                }
            }
            if friends.contains(k) {
                let i = choose|i: int| 0 <= i < friends.len() && friends[i] == k;
                assert(out[i + 1] == k);
            }
            if k == id {
                assert(out[0] == k);
            }
        }
    } else {
        let rest = friends.skip(1);
        assert(rising(rest)) by {
            assert forall|i: int, j: int| 0 <= i < j < rest.len() implies key_before(
                rest[i],
                rest[j],
            ) by {
                assert(rest[i] == friends[i + 1] && rest[j] == friends[j + 1]);
            }
        }
        lemma_with_friend_rising(rest, id);
        let tail = with_friend(rest, id);
        lemma_key_before_total(id, friends[0]);
        assert forall|i: int, j: int| 0 <= i < j < out.len() implies key_before(
            out[i],
            out[j],
        ) by {
            if i == 0 {
                assert(tail.contains(tail[j - 1]));
                if tail[j - 1] != id {
                    let m = choose|m: int| 0 <= m < rest.len() && rest[m] == tail[j - 1];
                    assert(friends[m + 1] == tail[j - 1]);
                }
            } else {
                assert(out[i] == tail[i - 1] && out[j] == tail[j - 1]);
            }
        }
        assert forall|k: Seq<u8>| #[trigger] out.contains(k) <==> k == id || friends.contains(
            k,
        ) by {
            if out.contains(k) {
                let i = choose|i: int| 0 <= i < out.len() && out[i] == k;
                if i > 0 {
                    assert(tail.contains(tail[i - 1]));
                    if k != id {
                        let m = choose|m: int| 0 <= m < rest.len() && rest[m] == k;
                        assert(friends[m + 1] == k);
                    }
                } else {
                    assert(friends[0] == k);
                }
            }
            if friends.contains(k) {
                let i = choose|i: int| 0 <= i < friends.len() && friends[i] == k;
                if i > 0 {
                    assert(rest[i - 1] == k);
                    assert(rest.contains(k));
                    assert(tail.contains(k));
                    let m = choose|m: int| 0 <= m < tail.len() && tail[m] == k;
                    assert(out[m + 1] == k);
                } else {
                    assert(out[0] == k);
                }
            }
            if k == id {
                assert(tail.contains(id));
                let m = choose|m: int| 0 <= m < tail.len() && tail[m] == k;
                assert(out[m + 1] == k);
            }
        }
    }
}

/// Taking a friend out keeps the order and leaves exactly the others.
pub proof fn lemma_without_friend_rising(friends: Seq<Seq<u8>>, id: Seq<u8>)
    requires
        rising(friends),
    ensures
        rising(without_friend(friends, id)),
        forall|k: Seq<u8>| #[trigger]
            without_friend(friends, id).contains(k) <==> k != id && friends.contains(k),
    decreases friends.len(),
{
    let out = without_friend(friends, id);
    if friends.len() > 0 {
        let rest = friends.skip(1);
        assert(rising(rest)) by {
            assert forall|i: int, j: int| 0 <= i < j < rest.len() implies key_before(
                rest[i],
                rest[j],
            ) by {
                assert(rest[i] == friends[i + 1] && rest[j] == friends[j + 1]);
            }
        }
        lemma_without_friend_rising(rest, id);
        let tail = without_friend(rest, id);
        assert forall|i: int, j: int| 0 <= i < j < out.len() implies key_before(
            out[i],
            out[j],
        ) by {
            if friends[0] != id {
                if i == 0 {
                    assert(tail.contains(tail[j - 1]));
                    let m = choose|m: int| 0 <= m < rest.len() && rest[m] == tail[j - 1];
                    assert(friends[m + 1] == tail[j - 1]);
                } else {
                    assert(out[i] == tail[i - 1] && out[j] == tail[j - 1]);
                }
            }
        }
        assert forall|k: Seq<u8>| #[trigger] out.contains(k) <==> k != id && friends.contains(
            k,
        ) by {
            if out.contains(k) {
                let i = choose|i: int| 0 <= i < out.len() && out[i] == k;
                if friends[0] != id && i == 0 {
                    assert(friends[0] == k);
                } else {
                    if friends[0] != id {
                        assert(tail[i - 1] == k);
                    }
                    assert(tail.contains(k));
                    let m = choose|m: int| 0 <= m < rest.len() && rest[m] == k;
                    assert(friends[m + 1] == k);
                }
            }
            if k != id && friends.contains(k) {
                let i = choose|i: int| 0 <= i < friends.len() && friends[i] == k;
                if i > 0 {
                    assert(rest[i - 1] == k);
                    assert(rest.contains(k));
                    assert(tail.contains(k));
                    let m = choose|m: int| 0 <= m < tail.len() && tail[m] == k;
                    if friends[0] != id {
                        assert(out[m + 1] == k);
                    }
                } else {
                    assert(out[0] == k);
                }
            }
        }
    } else {
        assert forall|k: Seq<u8>| #[trigger] out.contains(k) <==> k != id && friends.contains(
            k,
        ) by {
            if out.contains(k) {
                let i = choose|i: int| 0 <= i < out.len() && out[i] == k;
            }
            if friends.contains(k) {
                let i = choose|i: int| 0 <= i < friends.len() && friends[i] == k;
            }
        }
    }
}

/// A list of friends: each once, in the order of their keys.
#[derive(Clone, Debug, PartialEq, Eq)]
pub struct FriendSet {
    ids: Vec<NodeId>,
}

impl View for FriendSet {
    type V = Seq<Seq<u8>>;

    closed spec fn view(&self) -> Seq<Seq<u8>> {
        Seq::new(self.ids@.len(), |i: int| self.ids@[i]@)
    }
}

impl FriendSet {
    /// The keys stand in strictly rising order.
    pub open spec fn well_formed(&self) -> bool {
        rising(self@)
    }

    /// The empty list.
    pub fn new() -> (friends: FriendSet)
        ensures
            friends@ == Seq::<Seq<u8>>::empty(),
            friends.well_formed(),
    {
        let friends = FriendSet { ids: Vec::new() };
        assert(friends@ =~= Seq::<Seq<u8>>::empty());
        friends
    }

    /// The number of friends.
    pub fn len(&self) -> (n: usize)
        ensures
            n == self@.len(),
    {
        self.ids.len()
    }

    /// Puts `id` in at its place, unless it is there.
    pub fn insert(&mut self, id: NodeId)
        ensures
            final(self)@ == with_friend(old(self)@, id@),
            old(self).well_formed() ==> final(self).well_formed(),
    {
        let (at, present) = self.place_of(&id);
        proof {
            lemma_key_before_irreflexive(id@);
            lemma_with_friend_at(self@, id@, at as int);
            if self.well_formed() {
                lemma_with_friend_rising(self@, id@);
            }
        }
        if !present {
            self.ids.insert(at, id);
            assert(self@ =~= old(self)@.insert(at as int, id@));
        }
    }

    /// Where `id` stands or would stand: the first place whose key is not
    /// before it, and whether that key is `id` itself.
    fn place_of(&self, id: &NodeId) -> (found: (usize, bool))
        ensures
            found.0 <= self@.len(),
            forall|i: int| 0 <= i < found.0 ==> self@[i] != id@ && !key_before(id@, self@[i]),
            found.1 ==> found.0 < self@.len() && self@[found.0 as int] == id@,
            !found.1 ==> found.0 == self@.len() || key_before(id@, self@[found.0 as int]),
    {
        let mut at: usize = 0;
        while at < self.ids.len()
            invariant
                at <= self.ids@.len(),
                forall|i: int| 0 <= i < at ==> self@[i] != id@ && !key_before(id@, self@[i]),
            decreases self.ids@.len() - at,
        {
            match compare_keys(id, &self.ids[at]) {
                KeyOrder::Same => {
                    return (at, true);
                },
                KeyOrder::Before => {
                    proof {
                        lemma_key_before_irreflexive(id@);
                    }
                    return (at, false);
                },
                KeyOrder::After => {
                    proof {
                        lemma_key_before_irreflexive(id@);
                        if key_before(id@, self@[at as int]) {
                            lemma_key_before_transitive(id@, self@[at as int], id@);
                        }
                    }
                },
            }
            at += 1;
        }
        (at, false)
    }

    /// Takes `id` out, if it is there.
    pub fn remove(&mut self, id: &NodeId)
        ensures
            final(self)@ == without_friend(old(self)@, id@),
            old(self).well_formed() ==> final(self).well_formed(),
    {
        proof {
            if self.well_formed() {
                lemma_without_friend_rising(self@, id@);
            }
        }
        let mut kept: Vec<NodeId> = Vec::new();
        let mut i: usize = 0;
        assert(old(self)@.skip(0) =~= old(self)@);
        assert(Seq::new(kept@.len(), |k: int| kept@[k]@) + old(self)@ =~= old(self)@);
        while i < self.ids.len()
            invariant
                i <= self.ids@.len(),
                self.ids == old(self).ids,
                without_friend(old(self)@, id@) == Seq::new(kept@.len(), |k: int| kept@[k]@)
                    + without_friend(old(self)@.skip(i as int), id@),
            decreases self.ids@.len() - i,
        {
            let ghost before = Seq::new(kept@.len(), |k: int| kept@[k]@);
            let ghost rest = old(self)@.skip(i as int);
            assert(rest.skip(1) =~= old(self)@.skip(i + 1));
            assert(rest[0] == self.ids@[i as int]@);
            match compare_keys(id, &self.ids[i]) {
                KeyOrder::Same => {},
                _ => {
                    kept.push(self.ids[i]);
                    assert(Seq::new(kept@.len(), |k: int| kept@[k]@) =~= before.push(rest[0]));
                    assert(before.push(rest[0]) + without_friend(rest.skip(1), id@) =~= before + (
                    seq![rest[0]] + without_friend(rest.skip(1), id@)));
                },
            }
            i += 1;
        }
        assert(old(self)@.skip(i as int) =~= Seq::<Seq<u8>>::empty());
        self.ids = kept;
        assert(final(self)@ =~= without_friend(old(self)@, id@));
    }

    /// The friends, in order.
    pub fn into_vec(self) -> (ids: Vec<NodeId>)
        ensures
            ids@.len() == self@.len(),
            forall|i: int| 0 <= i < ids@.len() ==> ids@[i]@ == self@[i],
    {
        self.ids
    }
}

/// The friend that an entry names: the key that its base-58 text decodes
/// to, where that is a public key.
pub open spec fn friend_of_entry(entry: Seq<char>) -> Result<Seq<u8>, ConfigError> {
    match base58_array(encode_utf8(entry)) {
        None => Err(ConfigError::Base58),
        Some(key) => if ed25519_is_point(key) {
            Ok(key)
        } else {
            Err(ConfigError::InvalidKey)
        },
    }
}

/// The friends of a stored list, line by line, on top of those `found`. A
/// line counts trimmed; an empty line and a line that begins with `#` name
/// nobody. The first line that names no friend fails the whole list.
pub open spec fn friends_of_lines(lines: Seq<Seq<char>>, found: Seq<Seq<u8>>) -> Result<
    Seq<Seq<u8>>,
    ConfigError,
>
    decreases lines.len(),
{
    if lines.len() == 0 {
        Ok(found)
    } else {
        let entry = trimmed(lines[0]);
        if entry.len() == 0 || entry[0] == '#' {
            friends_of_lines(lines.skip(1), found)
        } else {
            match friend_of_entry(entry) {
                Err(e) => Err(e),
                Ok(key) => friends_of_lines(lines.skip(1), with_friend(found, key)),
            }
        }
    }
}

/// The friends that a stored list names.
pub open spec fn friends_of(text: Seq<char>) -> Result<Seq<Seq<u8>>, ConfigError> {
    friends_of_lines(lines_of(text), Seq::empty())
}

/// `found` with the friends that the entries name. An entry counts trimmed;
/// an empty entry names nobody. The first entry that names no friend fails
/// them all.
pub open spec fn with_entries(found: Seq<Seq<u8>>, entries: Seq<Seq<char>>) -> Result<
    Seq<Seq<u8>>,
    ConfigError,
>
    decreases entries.len(),
{
    if entries.len() == 0 {
        Ok(found)
    } else {
        let entry = trimmed(entries[0]);
        if entry.len() == 0 {
            with_entries(found, entries.skip(1))
        } else {
            match friend_of_entry(entry) {
                Err(e) => Err(e),
                Ok(key) => with_entries(with_friend(found, key), entries.skip(1)),
            }
        }
    }
}

/// The text of a list: each friend's base-58 text on a line of its own.
pub open spec fn friends_text(friends: Seq<Seq<u8>>) -> Seq<char>
    decreases friends.len(),
{
    if friends.len() == 0 {
        Seq::empty()
    } else {
        base58_text(friends[0]) + seq!['\n'] + friends_text(friends.skip(1))
    }
}

/// Reads the friend that `entry` names.
pub fn parse_friend(entry: &str) -> (r: Result<NodeId, ConfigError>)
    ensures
        match friend_of_entry(entry@) {
            Ok(key) => r.is_ok() && r.unwrap()@ == key,
            Err(e) => r.is_err() && r.unwrap_err() == e,
        },
{
    match base58_decode(entry.as_bytes()) {
        None => Err(ConfigError::Base58),
        Some(raw) => match NodeId::from_bytes(&raw) {
            Some(id) => Ok(id),
            None => Err(ConfigError::InvalidKey),
        },
    }
}

/// Reads a stored list of friends.
pub fn parse_friends(content: &str) -> (r: Result<FriendSet, ConfigError>)
    ensures
        match friends_of(content@) {
            Ok(friends) => r.is_ok() && r.unwrap()@ == friends && r.unwrap().well_formed(),
            Err(e) => r.is_err() && r.unwrap_err() == e,
        },
{
    let chars = chars_of(content);
    let mut friends = FriendSet::new();
    let mut pos: usize = 0;
    assert(chars@.skip(0) =~= chars@);
    while pos < chars.len()
        invariant
            pos <= chars@.len(),
            chars@ == content@,
            friends.well_formed(),
            friends_of(content@) == friends_of_lines(lines_of(chars@.skip(pos as int)), friends@),
        decreases chars@.len() - pos,
    {
        let (end, next) = next_line(chars.as_slice(), pos);
        let (from, to) = trim_bounds(chars.as_slice(), pos, end);
        let ghost lines = lines_of(chars@.skip(pos as int));
        assert(lines[0] == chars@.subrange(pos as int, end as int));
        assert(lines.skip(1) =~= lines_of(chars@.skip(next as int)));
        if from < to && chars[from] != '#' {
            let entry = content.substring_char(from, to);
            match parse_friend(entry) {
                Ok(id) => {
                    friends.insert(id);
                },
                Err(e) => {
                    return Err(e);
                },
            }
        }
        pos = next;
    }
    assert(chars@.skip(pos as int) =~= Seq::<char>::empty());
    Ok(friends)
}

impl FriendSet {
    /// This list with the friends that the entries name.
    pub fn with_entries(self, entries: &[String]) -> (r: Result<FriendSet, ConfigError>)
        requires
            self.well_formed(),
        ensures
            match with_entries(self@, Seq::new(entries@.len(), |i: int| entries@[i]@)) {
                Ok(friends) => r.is_ok() && r.unwrap()@ == friends && r.unwrap().well_formed(),
                Err(e) => r.is_err() && r.unwrap_err() == e,
            },
    {
        let ghost all = Seq::new(entries@.len(), |i: int| entries@[i]@);
        let mut friends = self;
        let mut i: usize = 0;
        assert(all.skip(0) =~= all);
        while i < entries.len()
            invariant
                i <= entries@.len(),
                all == Seq::new(entries@.len(), |i: int| entries@[i]@),
                friends.well_formed(),
                with_entries(self@, all) == with_entries(friends@, all.skip(i as int)),
            decreases entries@.len() - i,
        {
            let raw = entries[i].as_str();
            let chars = chars_of(raw);
            let (from, to) = trim_bounds(chars.as_slice(), 0, chars.len());
            assert(chars@.subrange(0, chars@.len() as int) =~= chars@);
            assert(all.skip(i as int)[0] == raw@);
            assert(all.skip(i as int).skip(1) =~= all.skip(i + 1));
            if from < to {
                let entry = raw.substring_char(from, to);
                match parse_friend(entry) {
                    Ok(id) => {
                        friends.insert(id);
                    },
                    Err(e) => {
                        return Err(e);
                    },
                }
            }
            i += 1;
        }
        assert(all.skip(i as int) =~= Seq::<Seq<char>>::empty());
        Ok(friends)
    }

    /// The text of this list, as it is stored.
    pub fn render(&self) -> (text: String)
        ensures
            text@ == friends_text(self@),
    {
        let mut text = String::new();
        let mut i: usize = 0;
        assert(self@.skip(0) =~= self@);
        while i < self.ids.len()
            invariant
                i <= self.ids@.len(),
                friends_text(self@) == text@ + friends_text(self@.skip(i as int)),
            decreases self.ids@.len() - i,
        {
            let ghost before = text@;
            let ghost rest = self@.skip(i as int);
            let line = base58_encode(self.ids[i].as_bytes().as_slice());
            text.append(line.as_str());
            text.append("\n");
            proof {
                reveal_strlit("\n");
                assert("\n"@ =~= seq!['\n']);
                assert(rest[0] == self.ids@[i as int]@);
                assert(rest.skip(1) =~= self@.skip(i + 1));
                assert(text@ + friends_text(rest.skip(1)) =~= before + (base58_text(rest[0])
                    + seq!['\n'] + friends_text(rest.skip(1))));
            }
            i += 1;
        }
        assert(self@.skip(i as int) =~= Seq::<Seq<u8>>::empty());
        assert(text@ + Seq::<char>::empty() =~= text@);
        text
    }
}

/// The salt that a stored key file holds: what its trimmed text decodes to.
pub open spec fn salt_of(text: Seq<char>) -> Result<Seq<u8>, ConfigError> {
    match base58_array(encode_utf8(trimmed(text))) {
        None => Err(ConfigError::Base58),
        Some(salt) => Ok(salt),
    }
}

/// Reads the salt from the content of a key file.
pub fn parse_salt(content: &str) -> (r: Result<[u8; 32], ConfigError>)
    ensures
        match salt_of(content@) {
            Ok(salt) => r.is_ok() && r.unwrap()@ == salt,
            Err(e) => r.is_err() && r.unwrap_err() == e,
        },
{
    let chars = chars_of(content);
    let (from, to) = trim_bounds(chars.as_slice(), 0, chars.len());
    assert(chars@.subrange(0, chars@.len() as int) =~= chars@);
    let entry = content.substring_char(from, to);
    match base58_decode(entry.as_bytes()) {
        Some(salt) => Ok(salt),
        None => Err(ConfigError::Base58),
    }
}

/// The content of the key file that holds `salt`: its base-58 text on a
/// line.
pub fn render_salt(salt: &[u8; 32]) -> (text: String)
    ensures
        text@ == base58_text(salt@) + seq!['\n'],
{
    let mut text = base58_encode(salt.as_slice());
    text.append("\n");
    proof {
        reveal_strlit("\n");
        assert("\n"@ =~= seq!['\n']);
    }
    text
}

/// The secret of the identity that goes by `name` under `salt`: the BLAKE3
/// digest of the name's UTF-8 form followed by the salt.
pub open spec fn secret_of(name: Seq<char>, salt: Seq<u8>) -> Seq<u8> {
    blake3_digest(encode_utf8(name) + salt)
}

/// Derives the signing key of the identity that goes by `name` under `salt`.
pub fn secret_for(name: &str, salt: &[u8; 32]) -> (key: SigningKey)
    ensures
        key@ == secret_of(name@, salt@),
{
    let mut material: Vec<u8> = Vec::new();
    put_slice(&mut material, name.as_bytes());
    put_slice(&mut material, salt.as_slice());
    assert(material@ =~= encode_utf8(name@) + salt@);
    let digest = blake3_hash(material.as_slice());
    SigningKey::from_bytes(&digest)
}

} // verus!
