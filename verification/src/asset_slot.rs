use core::any::Any;
use std::sync::Arc;
use vstd::prelude::*;

use crate::key::{AssetKey, KeyType};
use crate::util::TypeId;

verus! {

/// What can be stored as an asset.
pub trait AssetType: Sized + Send + Sync + 'static {}

impl<T: Sized + Send + Sync + 'static> AssetType for T {}

/// Calls `<Arc<V> as Clone>::clone(shared)`: a second handle on the same
/// allocation, so it holds the same value.
#[verifier::external_body]
fn arc_clone<V>(shared: &Arc<V>) -> (copy: Arc<V>)
    ensures
        copy == *shared,
{
    shared.clone()
}

/// Calls `Arc::as_ptr(shared)` and takes the address as a number. While the
/// allocation is alive no other allocation has it; nothing is claimed of its
/// value.
#[verifier::external_body]
pub(crate) fn arc_address<V>(shared: &Arc<V>) -> usize {
    Arc::as_ptr(shared) as usize
}

/// A shared allocation whose value's type is forgotten: an
/// `Arc<dyn Any + Send + Sync>`.
#[verifier::external_body]
pub struct ErasedAsset {
    value: Arc<dyn Any + Send + Sync>,
}

/// Lets `shared` stand as an `Arc<dyn Any + Send + Sync>`: the same
/// allocation with its value's type forgotten. Nothing is claimed of the
/// result; what `downcast_arc` gives back for it is stated there.
#[verifier::external_body]
pub(crate) fn erase_arc<V: Send + Sync + 'static>(shared: Arc<V>) -> ErasedAsset {
    ErasedAsset { value: shared }
}

/// Whether `erased` is what erasing the type of `shared` gave.
pub closed spec fn erased_from<V: Send + Sync + 'static>(shared: Arc<V>, erased: ErasedAsset) -> bool {
    call_ensures(erase_arc::<V>, (shared,), erased)
}

/// Calls `<Arc<dyn Any + Send + Sync> as Clone>::clone`: a second handle on the
/// same allocation, so it is the same erased value.
#[verifier::external_body]
fn clone_erased(erased: &ErasedAsset) -> (copy: ErasedAsset)
    ensures
        copy == *erased,
{
    ErasedAsset { value: erased.value.clone() }
}

/// Calls `Arc::<dyn Any + Send + Sync>::downcast::<V>(erased)`: the allocation
/// as an `Arc<V>`, when its value is a `V`. An allocation that `erase_arc`
/// made from an `Arc<V>` comes back as that `Arc<V>`; of other allocations
/// nothing is claimed.
#[verifier::external_body]
fn downcast_arc<V: Send + Sync + 'static>(erased: ErasedAsset) -> (typed: Option<Arc<V>>)
    ensures
        forall|shared: Arc<V>|
            #[trigger] call_ensures(erase_arc::<V>, (shared,), erased) ==> typed == Some(shared),
{
    erased.value.downcast::<V>().ok()
}

/// What a slot holds: the asset's key and the asset itself.
pub(crate) struct AssetSlotInner<K, T: AssetType> {
    pub(crate) key: AssetKey<K>,
    pub(crate) asset: T,
}

impl<K, T: AssetType> AssetSlotInner<K, T> {
    /// The key that the asset is stored under.
    pub open(crate) spec fn key_of(self) -> AssetKey<K> {
        self.key
    }

    /// The stored asset.
    pub open(crate) spec fn asset_of(self) -> T {
        self.asset
    }

    /// A new shared allocation that holds `asset` under `key`.
    pub(crate) fn allocate(key: AssetKey<K>, asset: T) -> (shared: Arc<AssetSlotInner<K, T>>)
        ensures
            shared.key_of() == key,
            shared.asset_of() == asset,
    {
        Arc::new(AssetSlotInner { key, asset })
    }
}

/// A shared slot that holds one asset with its key. The slot lives as long as
/// the table that owns it or any `Asset` handed out for it.
pub(crate) struct AssetSlot<K: KeyType, T: AssetType = ()> {
    pub(crate) inner: Arc<AssetSlotInner<K, T>>,
    pub(crate) alloc: usize,
}

impl<K: KeyType, T: AssetType> AssetSlot<K, T> {
    /// What the slot holds.
    pub open(crate) spec fn contents(self) -> AssetSlotInner<K, T> {
        *self.inner
    }

    /// The shared allocation that the slot holds.
    pub open(crate) spec fn shared(self) -> Arc<AssetSlotInner<K, T>> {
        self.inner
    }

    /// The identity of the slot's allocation: its address, taken when the
    /// slot was made.
    pub open(crate) spec fn alloc_id(self) -> usize {
        self.alloc
    }

    /// A slot in a new allocation that holds `asset` under the whole key `key`.
    pub(crate) fn with_key(key: AssetKey<K>, asset: T) -> (slot: AssetSlot<K, T>)
        ensures
            slot.contents().key_of() == key,
            slot.contents().asset_of() == asset,
    {
        let inner = AssetSlotInner::allocate(key, asset);
        let alloc = arc_address(&inner);
        AssetSlot { inner, alloc }
    }

    /// A slot that holds `asset` under `key`, keyed by the type `T`, with the
    /// key's hash computed.
    pub fn new(key: K, asset: T) -> (slot: AssetSlot<K, T>)
        ensures
            slot.contents().key_of().key_value() == key,
            slot.contents().asset_of() == asset,
            call_ensures(TypeId::of::<T>, (), slot.contents().key_of().type_id_value()),
            call_ensures(
                AssetKey::<K>::hash::<K>,
                (&slot.contents().key_of().type_id_value(), &key),
                slot.contents().key_of().hash_value(),
            ),
    {
        let type_id = TypeId::of::<T>();
        assert(call_ensures(TypeId::of::<T>, (), type_id));
        Self::with_key(AssetKey::new(type_id, key), asset)
    }

    /// The slot with its asset's type forgotten, so that slots of assets of
    /// different types can be held side by side.
    #[must_use]
    pub fn erased(self) -> (erased: ErasedSlot)
        ensures
            erased.alloc_id() == self.alloc_id(),
            erased_from(self.shared(), erased.erased_asset()),
    {
        let inner = erase_arc(self.inner);
        assert(erased_from(self.inner, inner));
        ErasedSlot { alloc: self.alloc, inner }
    }

    /// What the slot holds.
    #[must_use]
    pub fn as_ref(&self) -> (inner: &AssetSlotInner<K, T>)
        ensures
            *inner == self.contents(),
    {
        &self.inner
    }
}

/// A slot whose asset's type is forgotten: the identity of its allocation and
/// the shared allocation itself.
pub(crate) struct ErasedSlot {
    pub(crate) alloc: usize,
    pub(crate) inner: ErasedAsset,
}

impl ErasedSlot {
    /// The identity of the slot's allocation.
    pub open(crate) spec fn alloc_id(self) -> usize {
        self.alloc
    }

    /// The allocation, with its type forgotten.
    pub open(crate) spec fn erased_asset(self) -> ErasedAsset {
        self.inner
    }

    /// The slot again, when its asset is a `T` under a key of the type `K`.
    pub(crate) fn typed<K: KeyType, T: AssetType>(&self) -> (slot: Option<AssetSlot<K, T>>)
        ensures
            slot matches Some(s) ==> s.alloc_id() == self.alloc_id(),
            forall|inner: Arc<AssetSlotInner<K, T>>|
                #[trigger] erased_from(inner, self.inner) ==> slot == Some(
                    AssetSlot { inner, alloc: self.alloc },
                ),
    {
        match downcast_arc::<AssetSlotInner<K, T>>(clone_erased(&self.inner)) {
            Some(inner) => Some(AssetSlot { inner, alloc: self.alloc }),
            None => None,
        }
    }
}

/// A handle on a stored asset. It keeps the slot alive and can be read from
/// without the table.
pub struct Asset<K: KeyType, T: AssetType> {
    pub(crate) slot: usize,
    pub(crate) alloc: usize,
    pub(crate) inner: Arc<AssetSlotInner<K, T>>,
}

impl<K: KeyType, T: AssetType> Asset<K, T> {
    /// The number of the slot that the handle was given out for.
    pub open(crate) spec fn slot_index(self) -> usize {
        self.slot
    }

    /// The identity of the allocation that the handle shares.
    pub open(crate) spec fn alloc_id(self) -> usize {
        self.alloc
    }

    /// The key that the asset is stored under.
    pub open(crate) spec fn key(self) -> AssetKey<K> {
        self.inner.key
    }

    /// The asset.
    pub open(crate) spec fn value(self) -> T {
        self.inner.asset
    }

    /// A handle on the asset in `from`, which is the slot numbered `slot`.
    #[must_use]
    pub(crate) fn new(slot: usize, from: &AssetSlot<K, T>) -> (handle: Self)
        ensures
            handle.slot_index() == slot,
            handle.alloc_id() == from.alloc_id(),
            handle.key() == from.contents().key_of(),
            handle.value() == from.contents().asset_of(),
    {
        Asset { slot, alloc: from.alloc, inner: arc_clone(&from.inner) }
    }

    /// What the slot holds.
    #[must_use]
    pub(crate) fn as_inner_ref(&self) -> (inner: &AssetSlotInner<K, T>)
        ensures
            inner.key_of() == self.key(),
            inner.asset_of() == self.value(),
    {
        &self.inner
    }

    /// The asset.
    #[must_use]
    pub fn as_ref(&self) -> (asset: &T)
        ensures
            *asset == self.value(),
    {
        &self.as_inner_ref().asset
    }
}

impl<K: KeyType, T: AssetType> core::ops::Deref for AssetSlot<K, T> {
    type Target = AssetSlotInner<K, T>;

    fn deref(&self) -> (inner: &AssetSlotInner<K, T>)
        ensures
            *inner == self.contents(),
    {
        self.as_ref()
    }
}

impl<K: KeyType, T: AssetType> core::ops::Deref for Asset<K, T> {
    type Target = T;

    fn deref(&self) -> (asset: &T)
        ensures
            *asset == self.value(),
    {
        self.as_ref()
    }
}

} // verus!
