//! The secure-store contract — an encrypted-at-rest map from logical string
//! keys to byte values — and an in-memory implementation that simulates
//! encryption for tests and smoke runs.
//!
//! The in-memory store masks values with a fixed byte; this is a cheap test
//! double behind the same contract, not a security mechanism. Production
//! storage encrypts through the blob codec and lives behind the same trait.

use vstd::prelude::*;

use vstd::hash_map::StringHashMap;

verus! {

/// Errors produced by secure storage implementations.
#[derive(Debug)]
pub enum SecureStoreError {
    /// Requested key does not exist.
    NotFound { key: String },
    /// Underlying storage failure: I/O, serialization, or cryptography.
    Storage { reason: String },
}

impl SecureStoreError {
    /// True of the `NotFound` variant, which callers may treat as
    /// "never written" rather than as a failure.
    pub open spec fn is_not_found(&self) -> bool {
        self matches SecureStoreError::NotFound { .. }
    }
}

/// Contract for encrypted-at-rest storage: a map from logical string keys to
/// byte values. `put` followed by `get` on the same key returns the value
/// just written; `get` fails with `NotFound` exactly on keys not present;
/// `delete` is idempotent.
pub trait SecureStore: Sized {
    /// The logical map this store holds. Implementations outside the
    /// verified world are not checked against it and inherit the default.
    open spec fn contents(&self) -> Map<Seq<char>, Seq<u8>> {
        Map::empty()
    }

    /// Persist a value under a key, overwriting any existing entry.
    fn put(&mut self, key: &str, value: &[u8]) -> (r: Result<(), SecureStoreError>)
        ensures
            r is Ok ==> final(self).contents() == old(self).contents().insert(key@, value@),
            r is Err ==> final(self).contents() == old(self).contents(),
    ;

    /// Retrieve the value for a key. Fails with `NotFound` exactly when the
    /// key is absent, so "never written" is distinguishable from a storage
    /// or decryption failure.
    fn get(&self, key: &str) -> (r: Result<Vec<u8>, SecureStoreError>)
        ensures
            r matches Ok(v) ==> self.contents().contains_key(key@)
                && v@ == self.contents()[key@],
            (r matches Err(e) && e.is_not_found()) <==> !self.contents().contains_key(key@),
            r matches Err(e) ==> (e matches SecureStoreError::NotFound { key: k } ==> k@ == key@),
    ;

    /// Remove a key and its value; removing an absent key succeeds.
    fn delete(&mut self, key: &str) -> (r: Result<(), SecureStoreError>)
        ensures
            r is Ok ==> final(self).contents() == old(self).contents().remove(key@),
            r is Err ==> final(self).contents() == old(self).contents(),
    ;
}

/// A `Storage` failure with the given reason.
pub fn storage_err(reason: &str) -> (e: SecureStoreError)
    ensures
        e matches SecureStoreError::Storage { reason: s } && s@ == reason@,
{
    SecureStoreError::Storage { reason: reason.to_owned() }
}

/// Byte used to mask values in the in-memory store.
pub const MASK_BYTE: u8 = 0xA5;

/// The mask applied pointwise.
pub open spec fn mask_seq(s: Seq<u8>) -> Seq<u8> {
    s.map_values(|b: u8| b ^ MASK_BYTE)
}

/// Masking twice restores the original bytes.
pub proof fn lemma_mask_involutive(s: Seq<u8>)
    ensures
        mask_seq(mask_seq(s)) == s,
{
    assert forall|i: int| 0 <= i < s.len() implies mask_seq(mask_seq(s))[i] == s[i] by {
        let b = s[i];
        assert((b ^ MASK_BYTE) ^ MASK_BYTE == b) by (bit_vector);
    }
    assert(mask_seq(mask_seq(s)) =~= s);
}

/// Mask a byte string; masking again restores the input.
pub fn mask(input: &[u8]) -> (r: Vec<u8>)
    ensures
        r@ == mask_seq(input@),
{
    let mut out: Vec<u8> = Vec::new();
    let mut i: usize = 0;
    while i < input.len()
        invariant
            i <= input@.len(),
            out@ == mask_seq(input@.take(i as int)),
        decreases input@.len() - i,
    {
        out.push(input[i] ^ MASK_BYTE);
        i = i + 1;
        proof {
            assert(out@ =~= mask_seq(input@.take(i as int)));
        }
    }
    proof {
        assert(input@.take(input@.len() as int) =~= input@);
    }
    out
}

/// Unmask a byte string previously masked.
pub fn unmask(input: &[u8]) -> (r: Vec<u8>)
    ensures
        r@ == mask_seq(input@),
        mask_seq(input@) == input@ ==> r@ == input@,
{
    mask(input)
}

/// In-memory secure store that simulates encryption for tests and smoke
/// runs; values are held masked, never verbatim.
pub struct InMemorySecureStore {
    inner: StringHashMap<Vec<u8>>,
}

impl InMemorySecureStore {
    pub fn new() -> (r: Self)
        ensures
            r.contents() == Map::<Seq<char>, Seq<u8>>::empty(),
    {
        let r = InMemorySecureStore { inner: StringHashMap::new() };
        proof {
            assert(r.contents() =~= Map::<Seq<char>, Seq<u8>>::empty());
        }
        r
    }

    /// The masked bytes held for a key, for tests that check no value is
    /// stored verbatim.
    pub fn stored_bytes(&self, key: &str) -> (r: Option<Vec<u8>>)
        ensures
            r matches Some(v) ==> self.contents().contains_key(key@)
                && v@ == mask_seq(self.contents()[key@]),
            r is None ==> !self.contents().contains_key(key@),
    {
        match self.inner.get(key) {
            Some(v) => {
                let copy = vstd::slice::slice_to_vec(v.as_slice());
                proof {
                    lemma_mask_involutive(copy@);
                }
                Some(copy)
            },
            None => None,
        }
    }
}

impl Default for InMemorySecureStore {
    fn default() -> (r: Self)
        ensures
            r.contents() == Map::<Seq<char>, Seq<u8>>::empty(),
    {
        InMemorySecureStore::new()
    }
}

impl SecureStore for InMemorySecureStore {
    /// The logical (unmasked) map.
    closed spec fn contents(&self) -> Map<Seq<char>, Seq<u8>> {
        self.inner@.map_values(|v: Vec<u8>| mask_seq(v@))
    }

    fn put(&mut self, key: &str, value: &[u8]) -> (r: Result<(), SecureStoreError>)
        ensures
            r is Ok,
    {
        let masked = mask(value);
        proof {
            lemma_mask_involutive(value@);
        }
        self.inner.insert(key.to_owned(), masked);
        proof {
            assert(self.contents() =~= old(self).contents().insert(key@, value@));
        }
        Ok(())
    }

    fn get(&self, key: &str) -> (r: Result<Vec<u8>, SecureStoreError>)
        ensures
            self.contents().contains_key(key@) ==> r is Ok,
    {
        match self.inner.get(key) {
            Some(masked) => {
                let value = unmask(masked.as_slice());
                proof {
                    lemma_mask_involutive(masked@);
                }
                Ok(value)
            },
            None => Err(SecureStoreError::NotFound { key: key.to_owned() }),
        }
    }

    fn delete(&mut self, key: &str) -> (r: Result<(), SecureStoreError>)
        ensures
            r is Ok,
    {
        self.inner.remove(key);
        proof {
            assert(self.contents() =~= old(self).contents().remove(key@));
        }
        Ok(())
    }
}

/// After a value is stored under a key, a lookup of that key yields exactly
/// that value: storing is inserting into the logical map, and reading is
/// looking the key up there.
pub proof fn lemma_put_then_get(m: Map<Seq<char>, Seq<u8>>, k: Seq<char>, v: Seq<u8>)
    ensures
        m.insert(k, v).contains_key(k),
        m.insert(k, v)[k] == v,
{
}

/// A key never written is absent, so a read fails with `NotFound`, and
/// deleting it changes nothing: deletion is idempotent.
pub proof fn lemma_absent_key(m: Map<Seq<char>, Seq<u8>>, k: Seq<char>)
    ensures
        !m.remove(k).contains_key(k),
        m.remove(k).remove(k) == m.remove(k),
        !m.contains_key(k) ==> m.remove(k) == m,
{
    assert(m.remove(k).remove(k) =~= m.remove(k));
    if !m.contains_key(k) {
        assert(m.remove(k) =~= m);
    }
}

} // verus!
