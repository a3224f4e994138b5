use std::collections::HashMap;
use std::hash::{Hash, Hasher};
use vstd::prelude::*;

verus! {

broadcast use vstd::std_specs::hash::group_hash_axioms;

/// What `<str as Hash>::hash` into a fresh `DefaultHasher` yields for a text.
pub uninterp spec fn text_hash(s: Seq<char>) -> u64;

/// Relies on `std::hash::DefaultHasher`: `new` builds a hasher with fixed
/// keys, so hashing a `str` and calling `finish` depends on the text alone.
#[verifier::external_body]
fn hash_text(content: &str) -> (r: u64)
    ensures
        r == text_hash(content@),
{
    let mut s = std::collections::hash_map::DefaultHasher::new();
    content.hash(&mut s);
    s.finish()
}

/// Key of a text in the content store.
#[derive(Clone, Copy, Debug, PartialEq, Eq, Hash, Structural)]
pub struct ContentHash(pub u64);

/// A text that hashes to a key which already holds different text.
#[derive(Clone, Copy, Debug, PartialEq, Eq, Structural)]
pub struct HashCollision {
    pub hash: ContentHash,
}

/// Content-addressed storage of shader text.
#[derive(Debug)]
pub struct Content {
    map: HashMap<u64, String>,
}

impl View for Content {
    type V = Map<u64, Seq<char>>;

    closed spec fn view(&self) -> Map<u64, Seq<char>> {
        Map::new(|k: u64| self.map@.contains_key(k), |k: u64| self.map@[k]@)
    }
}

impl Content {
    /// An empty store.
    pub fn new() -> (r: Content)
        ensures
            r@ == Map::<u64, Seq<char>>::empty(),
    {
        let r = Content { map: HashMap::new() };
        proof {
            assert(r@ =~= Map::<u64, Seq<char>>::empty());
        }
        r
    }

    /// The text stored under `hash`, if any.
    pub fn get(&self, hash: &ContentHash) -> (r: Option<&String>)
        ensures
            match r {
                Some(s) => self@.contains_key(hash.0) && s@ == self@[hash.0],
                None => !self@.contains_key(hash.0),
            },
    {
        self.map.get(&hash.0)
    }

    /// Number of distinct texts held.
    pub fn len(&self) -> (r: usize)
        ensures
            r == self@.dom().len(),
    {
        proof {
            assert(self@.dom() =~= self.map@.dom());
        }
        self.map.len()
    }

    /// Key under which `content` is stored.
    pub fn hash(content: &str) -> (r: ContentHash)
        ensures
            r.0 == text_hash(content@),
    {
        ContentHash(hash_text(content))
    }

    /// Stores `content` under the given key. Storing the same text again
    /// changes nothing. A key that already holds other text is a collision:
    /// the hash is not collision-resistant, so this breaks the store's
    /// invariant and callers treat the error as fatal; the store is left as
    /// it was and the stored text is never overwritten.
    pub fn insert_hashed(&mut self, hash: ContentHash, content: String) -> (r: Result<
        ContentHash,
        HashCollision,
    >)
        ensures
            match r {
                Ok(h) => {
                    &&& h == hash
                    &&& !(old(self)@.contains_key(hash.0) && old(self)@[hash.0] != content@)
                    &&& final(self)@ == old(self)@.insert(hash.0, content@)
                },
                Err(e) => {
                    &&& e.hash == hash
                    &&& old(self)@.contains_key(hash.0)
                    &&& old(self)@[hash.0] != content@
                    &&& *final(self) == *old(self)
                },
            },
    {
        match self.map.get(&hash.0) {
            Some(existing) => {
                if *existing == content {
                    proof {
                        assert(self@.insert(hash.0, content@) =~= self@);
                    }
                    Ok(hash)
                } else {
                    Err(HashCollision { hash })
                }
            },
            None => {
                self.map.insert(hash.0, content);
                proof {
                    assert(self@ =~= old(self)@.insert(hash.0, content@));
                }
                Ok(hash)
            },
        }
    }

    /// Stores `content` under its own hash.
    pub fn insert(&mut self, content: String) -> (r: Result<ContentHash, HashCollision>)
        ensures
            match r {
                Ok(h) => {
                    &&& h.0 == text_hash(content@)
                    &&& !(old(self)@.contains_key(h.0) && old(self)@[h.0] != content@)
                    &&& final(self)@ == old(self)@.insert(h.0, content@)
                },
                Err(e) => {
                    &&& e.hash.0 == text_hash(content@)
                    &&& old(self)@.contains_key(e.hash.0)
                    &&& old(self)@[e.hash.0] != content@
                    &&& *final(self) == *old(self)
                },
            },
    {
        let hash = Self::hash(content.as_str());
        self.insert_hashed(hash, content)
    }
}

/// Storing a text that the store accepted once more succeeds with the same
/// key and leaves the store as it was.
pub proof fn lemma_insert_idempotent(store: Map<u64, Seq<char>>, hash: u64, text: Seq<char>)
    requires
        !(store.contains_key(hash) && store[hash] != text),
    ensures
        !(store.insert(hash, text).contains_key(hash) && store.insert(hash, text)[hash] != text),
        store.insert(hash, text).insert(hash, text) == store.insert(hash, text),
        store.contains_key(hash) ==> store.insert(hash, text) == store,
{
    assert(store.insert(hash, text).insert(hash, text) =~= store.insert(hash, text));
    if store.contains_key(hash) {
        assert(store.insert(hash, text) =~= store);
    }
}

} // verus!
