//! The object store: validates hashes, resolves them to storage locations,
//! and performs the two user-facing operations `get` and `put` against an
//! in-memory backend keyed by hash.
use vstd::prelude::*;

use crate::Error;
use crate::codec::decode_object;
use crate::codec::encode_object;
use crate::codec::frame_of;
use crate::codec::frame_outcome;
use crate::codec::lemma_frame_round_trip;
use crate::codec::zlib_of;
use crate::hash::hash_chars_of;
use crate::hash::object_hash;

verus! {

/// An ASCII alphanumeric character: a decimal digit or a letter.
pub open spec fn is_alnum_char(c: char) -> bool {
    (48 <= c as int && c as int <= 57)      // '0' ..= '9'
    || (65 <= c as int && c as int <= 90)   // 'A' ..= 'Z'
    || (97 <= c as int && c as int <= 122)  // 'a' ..= 'z'
}

/// A well-formed object hash: exactly 40 alphanumeric characters.
pub open spec fn valid_hash(h: Seq<char>) -> bool {
    h.len() == 40 && forall|i: int| 0 <= i < h.len() ==> is_alnum_char(#[trigger] h[i])
}

/// Checks whether a string is a well-formed object hash.
#[verifier::loop_isolation(false)]
pub fn hash_is_valid(hash: &str) -> (r: bool)
    ensures
        r == valid_hash(hash@),
{
    let n = hash.unicode_len();
    if n != 40 {
        return false;
    }
    let mut i: usize = 0;
    while i < 40
        invariant
            0 <= i <= 40,
            forall|k: int| 0 <= k < i ==> is_alnum_char(#[trigger] hash@[k]),
        decreases 40 - i,
    {
        let c = hash.get_char(i);
        let u = c as u32;
        if !((48 <= u && u <= 57) || (65 <= u && u <= 90) || (97 <= u && u <= 122)) {
            return false;
        }
        i = i + 1;
    }
    true
}

/// The storage location of one object: a 2-character shard directory and a
/// 38-character file name, split losslessly off the hash.
pub struct Location {
    pub shard: String,
    pub file: String,
}

/// Splits a well-formed hash into its shard directory and file name; a
/// malformed hash is rejected before any lookup is attempted.
pub fn resolve_location(hash: &str) -> (r: Result<Location, Error>)
    ensures
        valid_hash(hash@) ==> (r matches Ok(loc)
            && loc.shard@ == hash@.subrange(0, 2)
            && loc.file@ == hash@.subrange(2, 40)),
        !valid_hash(hash@) ==> (r matches Err(e)
            && e matches Error::InvalidObjectHash(h) && h@ == hash@),
{
    if !hash_is_valid(hash) {
        return Err(Error::InvalidObjectHash(hash.to_owned()));
    }
    let shard = hash.substring_char(0, 2);
    let file = hash.substring_char(2, 40);
    Ok(Location { shard: shard.to_owned(), file: file.to_owned() })
}

/// The path under which a hash's object is stored, relative to the default
/// repository root.
pub open spec fn object_path_chars(h: Seq<char>) -> Seq<char> {
    "./.git/objects/"@ + h.subrange(0, 2) + "/"@ + h.subrange(2, 40)
}

/// Renders the storage path for a well-formed hash under the default
/// repository root, or rejects a malformed hash.
pub fn parse_object_path_from_hash(hash: &str) -> (r: Result<String, Error>)
    ensures
        valid_hash(hash@) ==> (r matches Ok(p) && p@ == object_path_chars(hash@)),
        !valid_hash(hash@) ==> (r matches Err(e)
            && e matches Error::InvalidObjectHash(h) && h@ == hash@),
{
    match resolve_location(hash) {
        Err(e) => Err(e),
        Ok(loc) => {
            let mut p = String::from_str("./.git/objects/");
            p.append(loc.shard.as_str());
            p.append("/");
            p.append(loc.file.as_str());
            proof {
                assert(p@ =~= object_path_chars(hash@));
            }
            Ok(p)
        },
    }
}

/// The bytes persisted for a content blob: its compressed frame.
pub open spec fn object_bytes_of(c: Seq<u8>) -> Seq<u8> {
    zlib_of(frame_of(c))
}

/// The map that a sequence of hash/bytes entries represents; a later entry
/// under the same key wins.
spec fn entries_map(s: Seq<(String, Vec<u8>)>) -> Map<Seq<char>, Seq<u8>>
    decreases s.len(),
{
    if s.len() == 0 {
        Map::empty()
    } else {
        entries_map(s.drop_last()).insert(s.last().0@, s.last().1@)
    }
}

spec fn unique_keys(s: Seq<(String, Vec<u8>)>) -> bool {
    forall|i: int, j: int| 0 <= i < j < s.len() ==> (#[trigger] s[i]).0@ != (#[trigger] s[j]).0@
}

proof fn lemma_entries_map_domain(s: Seq<(String, Vec<u8>)>, k: Seq<char>)
    ensures
        entries_map(s).contains_key(k) <==> exists|i: int| 0 <= i < s.len() && (#[trigger] s[i]).0@ == k,
    decreases s.len(),
{
    if s.len() > 0 {
        lemma_entries_map_domain(s.drop_last(), k);
        assert(forall|i: int| 0 <= i < s.len() - 1 ==> #[trigger] s.drop_last()[i] == s[i]);
        if s.last().0@ == k {
            assert((s[s.len() - 1]).0@ == k);
        }
        if entries_map(s).contains_key(k) && s.last().0@ != k {
            let i = choose|i: int| 0 <= i < s.drop_last().len() && (#[trigger] s.drop_last()[i]).0@ == k;
            assert((s[i]).0@ == k);
        }
        if exists|i: int| 0 <= i < s.len() && (#[trigger] s[i]).0@ == k {
            let i = choose|i: int| 0 <= i < s.len() && (#[trigger] s[i]).0@ == k;
            if i < s.len() - 1 {
                assert((s.drop_last()[i]).0@ == k);
            }
        }
    }
}

proof fn lemma_entries_map_at(s: Seq<(String, Vec<u8>)>, i: int)
    requires
        unique_keys(s),
        0 <= i < s.len(),
    ensures
        entries_map(s).contains_key(s[i].0@),
        entries_map(s)[s[i].0@] == s[i].1@,
    decreases s.len(),
{
    if i < s.len() - 1 {
        assert(forall|t: int| 0 <= t < s.len() - 1 ==> #[trigger] s.drop_last()[t] == s[t]);
        lemma_entries_map_at(s.drop_last(), i);
        assert(s.last().0@ != s[i].0@);
    }
}

proof fn lemma_entries_map_update(s: Seq<(String, Vec<u8>)>, i: int, e: (String, Vec<u8>))
    requires
        unique_keys(s),
        0 <= i < s.len(),
        e.0@ == s[i].0@,
    ensures
        entries_map(s.update(i, e)) == entries_map(s).insert(e.0@, e.1@),
        unique_keys(s.update(i, e)),
    decreases s.len(),
{
    let su = s.update(i, e);
    assert(forall|t: int| 0 <= t < s.len() && t != i ==> #[trigger] su[t] == s[t]);
    assert(su[i] == e);
    if i == s.len() - 1 {
        assert(su.drop_last() =~= s.drop_last());
        assert(su.last() == e);
        assert(entries_map(s.drop_last()).insert(s.last().0@, s.last().1@).insert(e.0@, e.1@)
            =~= entries_map(s.drop_last()).insert(e.0@, e.1@));
    } else {
        assert(forall|t: int| 0 <= t < s.len() - 1 ==> #[trigger] s.drop_last()[t] == s[t]);
        lemma_entries_map_update(s.drop_last(), i, e);
        assert(su.drop_last() =~= s.drop_last().update(i, e));
        assert(su.last() == s.last());
        assert(s.last().0@ != e.0@);
        assert(entries_map(s.drop_last()).insert(e.0@, e.1@).insert(s.last().0@, s.last().1@)
            =~= entries_map(s.drop_last()).insert(s.last().0@, s.last().1@).insert(e.0@, e.1@));
    }
}

/// The object store itself: an in-memory association of object hashes with
/// the persisted bytes of their objects.
pub struct ObjectStore {
    entries: Vec<(String, Vec<u8>)>,
}

impl View for ObjectStore {
    type V = Map<Seq<char>, Seq<u8>>;

    closed spec fn view(&self) -> Map<Seq<char>, Seq<u8>> {
        entries_map(self.entries@)
    }
}

impl ObjectStore {
    /// Each stored hash names exactly one object.
    pub closed spec fn wf(&self) -> bool {
        unique_keys(self.entries@)
    }

    /// An empty store.
    pub fn new() -> (r: ObjectStore)
        ensures
            r.wf(),
            r@ == Map::<Seq<char>, Seq<u8>>::empty(),
    {
        ObjectStore { entries: Vec::new() }
    }

    fn find(&self, key: &String) -> (r: Option<usize>)
        requires
            self.wf(),
        ensures
            r matches Some(i) ==> (i < self.entries@.len()
                && self.entries@[i as int].0@ == key@
                && self@.contains_key(key@)
                && self@[key@] == self.entries@[i as int].1@),
            r is None ==> !self@.contains_key(key@),
    {
        let n = self.entries.len();
        let mut idx: usize = 0;
        while idx < n
            invariant
                0 <= idx <= n,
                n == self.entries@.len(),
                self.wf(),
                forall|t: int| 0 <= t < idx ==> (#[trigger] self.entries@[t]).0@ != key@,
            decreases n - idx,
        {
            if self.entries[idx].0 == *key {
                proof {
                    lemma_entries_map_at(self.entries@, idx as int);
                }
                return Some(idx);
            }
            idx = idx + 1;
        }
        proof {
            lemma_entries_map_domain(self.entries@, key@);
        }
        None
    }

    /// Retrieves the content stored under `hash`. A malformed hash is
    /// rejected before the store is consulted; a hash never written is
    /// `ObjectNotFound`; stored bytes that do not decode are `MalformedObject`.
    pub fn get(&self, hash: &str) -> (r: Result<Vec<u8>, Error>)
        requires
            self.wf(),
        ensures
            !valid_hash(hash@) ==> (r matches Err(e)
                && e matches Error::InvalidObjectHash(h) && h@ == hash@),
            valid_hash(hash@) && !self@.contains_key(hash@) ==> (r matches Err(e)
                && e == Error::ObjectNotFound),
            valid_hash(hash@) && self@.contains_key(hash@) ==> ((forall|f: Seq<u8>|
                self@[hash@] == zlib_of(f) ==> frame_outcome(f, r))
                && (r matches Err(e) ==> e == Error::MalformedObject)),
    {
        if !hash_is_valid(hash) {
            return Err(Error::InvalidObjectHash(hash.to_owned()));
        }
        let key = hash.to_owned();
        match self.find(&key) {
            None => Err(Error::ObjectNotFound),
            Some(i) => decode_object(self.entries[i].1.as_slice()),
        }
    }

    /// Stores a content blob and returns its canonical hash. Idempotent:
    /// storing the same content again writes the same bytes under the same
    /// hash and leaves the store unchanged.
    pub fn put(&mut self, content: &[u8]) -> (r: String)
        requires
            old(self).wf(),
        ensures
            final(self).wf(),
            r@ == hash_chars_of(content@),
            valid_hash(r@),
            final(self)@ == old(self)@.insert(hash_chars_of(content@), object_bytes_of(content@)),
    {
        let hash = object_hash(content);
        let data = encode_object(content);
        let key = hash.clone();
        match self.find(&hash) {
            Some(i) => {
                self.entries[i] = (key, data);
                proof {
                    lemma_entries_map_update(
                        old(self).entries@,
                        i as int,
                        self.entries@[i as int],
                    );
                }
            },
            None => {
                proof {
                    lemma_entries_map_domain(self.entries@, hash@);
                }
                self.entries.push((key, data));
                proof {
                    assert(self.entries@.drop_last() =~= old(self).entries@);
                    assert(forall|t: int, u: int| 0 <= t < u < self.entries@.len()
                        ==> (#[trigger] self.entries@[t]).0@ != (#[trigger] self.entries@[u]).0@);
                }
            },
        }
        hash
    }
}

/// Idempotence of `put`: storing the same content twice yields the same hash
/// both times (the hash is a function of the content) and leaves the store in
/// the same state as storing it once.
pub proof fn lemma_put_idempotent(m: Map<Seq<char>, Seq<u8>>, c: Seq<u8>)
    ensures
        m.insert(hash_chars_of(c), object_bytes_of(c)).insert(hash_chars_of(c), object_bytes_of(c))
            == m.insert(hash_chars_of(c), object_bytes_of(c)),
{
    assert(m.insert(hash_chars_of(c), object_bytes_of(c)).insert(hash_chars_of(c), object_bytes_of(c))
        =~= m.insert(hash_chars_of(c), object_bytes_of(c)));
}

/// Round-trip identity of the store: retrieving what was just stored returns
/// exactly the stored content.
pub fn put_then_get(store: &mut ObjectStore, content: &[u8]) -> (r: Vec<u8>)
    requires
        old(store).wf(),
    ensures
        final(store).wf(),
        final(store)@ == old(store)@.insert(hash_chars_of(content@), object_bytes_of(content@)),
        r@ == content@,
{
    let hash = store.put(content);
    let res = store.get(hash.as_str());
    proof {
        lemma_frame_round_trip(content@);
        assert(store@[hash@] == zlib_of(frame_of(content@)));
        assert(frame_outcome(frame_of(content@), res));
    }
    match res {
        Ok(v) => v,
        Err(_) => vstd::pervasive::unreached(),
    }
}

} // verus!
