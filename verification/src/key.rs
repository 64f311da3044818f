use core::borrow::Borrow;
use core::hash::Hash;
use std::collections::hash_map::DefaultHasher;
use std::hash::Hasher;
use vstd::prelude::*;

use crate::util::{hash_after, hash_type_id, hasher_digest, type_id_write, TypeId};

verus! {

/// What an asset can be keyed by.
pub trait KeyType: Eq + Hash + Send + Sync + 'static {}

impl<K: Eq + Hash + Send + Sync + 'static> KeyType for K {}

/// Calls `<K as Borrow<Q>>::borrow(key)`. Nothing is claimed of the result:
/// it is whatever the `Borrow` impl of `K` hands out.
#[verifier::external_body]
fn borrow_key<K: Borrow<Q>, Q: ?Sized>(key: &K) -> &Q {
    key.borrow()
}

/// The key of a stored asset: the type of the asset, a key of the user's,
/// and a hash of both that is computed once, when the key is made.
#[derive(Debug, Clone)]
pub struct AssetKey<K> {
    pub(crate) hash: u64,
    pub(crate) type_id: TypeId,
    pub(crate) key: K,
}

impl<K> AssetKey<K> {
    /// The hash that was stored with the key.
    pub open(crate) spec fn hash_value(self) -> u64 {
        self.hash
    }

    /// The type that the key belongs to.
    pub open(crate) spec fn type_id_value(self) -> TypeId {
        self.type_id
    }

    /// The user's part of the key.
    pub open(crate) spec fn key_value(self) -> K {
        self.key
    }
}

impl<K: KeyType> AssetKey<K> {
    /// Hashes a type and a key, in that order, with a fresh `DefaultHasher`:
    /// the digest of the type's write followed by the writes of the key's
    /// `Hash` impl.
    #[must_use]
    pub fn hash<Q>(type_id: &TypeId, key: &Q) -> (hash: u64)
        where K: Borrow<Q>, Q: Hash,
        ensures
            exists|key_writes: Seq<Seq<u8>>|
                hash == hasher_digest(seq![type_id_write(*type_id)] + key_writes),
    {
        let mut state = DefaultHasher::new();
        hash_type_id(type_id, &mut state);
        let ghost typed = state@;
        assert(typed =~= seq![type_id_write(*type_id)]);
        let hashed = hash_after(key, state);
        let ghost key_writes = choose|writes: Seq<Seq<u8>>| hashed@ == typed + writes;
        let hash = hashed.finish();
        assert(hash == hasher_digest(seq![type_id_write(*type_id)] + key_writes));
        hash
    }

    /// Tells whether this key belongs to `type_id` and its user's part,
    /// borrowed as a `Q`, equals `key`. When the types agree, the answer is
    /// what `Q`'s `==` gives on the borrowed key and `key`.
    #[must_use]
    pub fn eq<Q>(&self, type_id: &TypeId, key: &Q) -> (same: bool)
        where K: Borrow<Q>, Q: Eq,
        ensures
            same ==> self.type_id_value() == *type_id,
            self.type_id_value() != *type_id ==> !same,
            self.type_id_value() == *type_id ==> exists|borrowed: &Q|
                call_ensures(<Q as PartialEq>::eq, (borrowed, key), same),
    {
        if self.type_id == *type_id {
            let borrowed = borrow_key::<K, Q>(&self.key);
            let same = <Q as PartialEq>::eq(borrowed, key);
            assert(call_ensures(<Q as PartialEq>::eq, (borrowed, key), same));
            same
        } else {
            false
        }
    }

    /// A key for `key` under `type_id`, with its hash computed by `hash`.
    #[must_use]
    pub fn new(type_id: TypeId, key: K) -> (made: Self)
        ensures
            made.type_id_value() == type_id,
            made.key_value() == key,
            call_ensures(AssetKey::<K>::hash::<K>, (&type_id, &key), made.hash_value()),
    {
        let hash = Self::hash::<K>(&type_id, &key);
        assert(call_ensures(AssetKey::<K>::hash::<K>, (&type_id, &key), hash));
        Self { hash, type_id, key }
    }
}

} // verus!
