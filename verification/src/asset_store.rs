use std::collections::hash_map::DefaultHasher;
use std::hash::Hasher;
use vstd::multiset::Multiset;
use vstd::prelude::*;

use crate::asset_slot::{erased_from, Asset, AssetSlot, AssetSlotInner, AssetType, ErasedAsset, ErasedSlot};
use std::sync::Arc;
use crate::key::AssetKey;
use crate::util::{hash_str, hash_type_id, hasher_digest, str_hash_writes, type_id_write, TypeId};

verus! {

/// The most entries, and the largest initial capacity, that a table takes:
/// beyond it the hash table's memory could not be addressed.
pub open spec fn table_size_limit() -> int {
    isize::MAX as int / 80
}

/// An index from hashes to slots: each entry is a hash and the number of the
/// slot that it was computed for.
#[verifier::external_body]
pub struct SlotTable {
    table: hashbrown::HashTable<(u64, usize)>,
}

/// The entries that a `SlotTable` holds.
pub uninterp spec fn slot_table_items(table: SlotTable) -> Multiset<(u64, usize)>;

/// The capacity that a `SlotTable` was made with.
pub uninterp spec fn slot_table_capacity(table: SlotTable) -> nat;

/// Calls `hashbrown::HashTable::with_capacity(capacity)`: an empty table.
#[verifier::external_body]
fn slot_table_with_capacity(capacity: usize) -> (table: SlotTable)
    requires
        capacity <= table_size_limit(),
    ensures
        slot_table_items(table) == Multiset::<(u64, usize)>::empty(),
        slot_table_capacity(table) == capacity,
{
    SlotTable { table: hashbrown::HashTable::with_capacity(capacity) }
}

/// Calls `hashbrown::HashTable::find` with `hash`, and an equality that asks
/// `entry_matches` whether an entry is the one for `type_id` and `key`. The
/// table calls the equality on every entry that was inserted with `hash`, so
/// it finds such an entry when there is one; what it finds is an entry of the
/// table for which the equality holds.
#[verifier::external_body]
fn slot_table_find(
    table: &SlotTable,
    hash: u64,
    slots: &Vec<Option<StoredSlot>>,
    type_id: TypeId,
    key: &str,
) -> (found: Option<(u64, usize)>)
    ensures
        found matches Some(e) ==> slot_table_items(*table).count(e) > 0 && slot_matches(
            slots@,
            e,
            hash,
            type_id,
            key@,
        ),
        found is None ==> forall|e: (u64, usize)|
            #![trigger slot_table_items(*table).count(e)]
            slot_table_items(*table).count(e) > 0 && e.0 == hash ==> !slot_matches(
                slots@,
                e,
                hash,
                type_id,
                key@,
            ),
{
    table.table.find(hash, |e| entry_matches(slots, e, hash, type_id, key)).copied()
}

/// Calls `hashbrown::HashTable::insert_unique` with the entry's own hash, and
/// with a hasher that reads that hash back from each entry: the entry is
/// added to those already there.
#[verifier::external_body]
fn slot_table_insert(table: &mut SlotTable, entry: (u64, usize))
    requires
        slot_table_items(*old(table)).len() < table_size_limit(),
        slot_table_capacity(*old(table)) <= table_size_limit(),
    ensures
        slot_table_items(*final(table)) == slot_table_items(*old(table)).insert(entry),
        slot_table_capacity(*final(table)) == slot_table_capacity(*old(table)),
{
    table.table.insert_unique(entry.0, entry, |e| e.0);
}

/// Calls `hashbrown::HashTable::find_entry` with `hash` and an equality that
/// asks `is_handle_entry` whether an entry is `(hash, slot)` and the slot
/// numbered `slot` is the allocation `alloc`; then removes the entry found.
/// The table calls the equality on every entry that was inserted with `hash`,
/// so the entry leaves exactly when it is there and the slot is that
/// allocation.
#[verifier::external_body]
fn slot_table_remove(
    table: &mut SlotTable,
    hash: u64,
    slots: &Vec<Option<StoredSlot>>,
    slot: usize,
    alloc: usize,
) -> (removed: bool)
    ensures
        removed == (slot_table_items(*old(table)).count((hash, slot)) > 0 && slot_holds(
            slots@,
            slot,
            alloc,
        )),
        slot_table_items(*final(table)) == if removed {
            slot_table_items(*old(table)).remove((hash, slot))
        } else {
            slot_table_items(*old(table))
        },
        slot_table_capacity(*final(table)) == slot_table_capacity(*old(table)),
{
    match table.table.find_entry(hash, |e| is_handle_entry(slots, e, hash, slot, alloc)) {
        Ok(entry) => {
            entry.remove();
            true
        },
        Err(_) => false,
    }
}

/// Calls `<str as PartialEq>::eq`: two texts are equal when they hold the
/// same characters.
#[verifier::external_body]
fn str_eq(a: &str, b: &str) -> (same: bool)
    ensures
        same == (a@ == b@),
{
    a == b
}

/// Whether the index entry `e` stands for a slot that holds the key `key`
/// of the type `type_id`, stored under `hash`.
spec fn slot_matches(
    slots: Seq<Option<StoredSlot>>,
    e: (u64, usize),
    hash: u64,
    type_id: TypeId,
    key: Seq<char>,
) -> bool {
    &&& e.0 == hash
    &&& e.1 < slots.len()
    &&& slots[e.1 as int] is Some
    &&& slots[e.1 as int].unwrap().key.type_id_value() == type_id
    &&& slots[e.1 as int].unwrap().key.key_value()@ == key
}

/// Tells whether the index entry `entry` stands for a slot that holds `key`
/// of the type `type_id`, stored under `hash`.
fn entry_matches(
    slots: &Vec<Option<StoredSlot>>,
    entry: &(u64, usize),
    hash: u64,
    type_id: TypeId,
    key: &str,
) -> (same: bool)
    ensures
        same == slot_matches(slots@, *entry, hash, type_id, key@),
{
    if entry.0 != hash || entry.1 >= slots.len() {
        return false;
    }
    match &slots[entry.1] {
        Some(slot) => {
            let stored = &slot.key;
            stored.type_id == type_id && str_eq(stored.key.as_str(), key)
        },
        None => false,
    }
}

/// Whether the slot numbered `slot` is live and is the allocation `alloc`.
spec fn slot_holds(slots: Seq<Option<StoredSlot>>, slot: usize, alloc: usize) -> bool {
    &&& slot < slots.len()
    &&& slots[slot as int] is Some
    &&& slots[slot as int].unwrap().erased.alloc_id() == alloc
}

/// Tells whether `entry` is `(hash, slot)` and the slot numbered `slot` is the
/// allocation `alloc`.
fn is_handle_entry(
    slots: &Vec<Option<StoredSlot>>,
    entry: &(u64, usize),
    hash: u64,
    slot: usize,
    alloc: usize,
) -> (same: bool)
    ensures
        same == (*entry == (hash, slot) && slot_holds(slots@, slot, alloc)),
{
    if entry.0 != hash || entry.1 != slot || slot >= slots.len() {
        return false;
    }
    match &slots[slot] {
        Some(stored) => stored.erased.alloc == alloc,
        None => false,
    }
}

/// The hash that the key `key` of the type `type_id` is filed under: what a
/// fresh `DefaultHasher` finishes with after it is fed the type and then the
/// key.
pub open spec fn key_hash(type_id: TypeId, key: Seq<char>) -> u64 {
    <DefaultHasher as vstd::std_specs::hash::DefaultHasherAdditionalSpecFns>::spec_finish(
        seq![vstd::bytes::spec_u64_to_le_bytes(type_id.value() as u64)] + str_hash_writes(key),
    )
}

/// What a table keeps for one slot: the slot's key, and the slot with its
/// asset's type forgotten.
struct StoredSlot {
    key: AssetKey<String>,
    erased: ErasedSlot,
}

/// What a table holds in one slot: the hash it is filed under, the type and
/// key it belongs to, the identity of the slot's allocation, and the
/// allocation itself with its asset's type forgotten.
pub struct AssetEntry {
    pub hash: u64,
    pub type_id: TypeId,
    pub key: Seq<char>,
    pub alloc: usize,
    pub asset: ErasedAsset,
}

/// Whether `erased` is the allocation of a slot that holds the asset `asset`
/// of the type `T` under the key `key`, with its type forgotten.
pub closed spec fn erased_holds<T: AssetType>(erased: ErasedAsset, key: AssetKey<String>, asset: T) -> bool {
    exists|shared: Arc<AssetSlotInner<String, T>>|
        #[trigger] erased_from(shared, erased) && shared.key_of() == key && shared.asset_of() == asset
}

/// Whether a request that found the slot `found` of `entries` answered with
/// the asset stored there: whatever asset of the type `T` under whatever key
/// the slot holds, the answer holds that asset under that key, in that
/// allocation.
pub open spec fn answers_with_stored<T: AssetType>(
    entries: Map<usize, AssetEntry>,
    found: usize,
    alloc: usize,
    key: AssetKey<String>,
    asset: T,
) -> bool {
    forall|k: AssetKey<String>, v: T|
        #[trigger] erased_holds(entries[found].asset, k, v) ==> key == k && asset == v && alloc
            == entries[found].alloc
}

/// Whether `entry` is filed under `hash`, for the key `key` of the type
/// `type_id`.
pub open spec fn entry_is_for(entry: AssetEntry, hash: u64, type_id: TypeId, key: Seq<char>) -> bool {
    entry.hash == hash && entry.type_id == type_id && entry.key == key
}

/// Whether no two slots of `entries` are filed under the same hash for the
/// same key of the same type.
pub open spec fn keys_unique(entries: Map<usize, AssetEntry>) -> bool {
    forall|i: usize, j: usize|
        #![trigger entries[i], entries[j]]
        entries.dom().contains(i) && entries.dom().contains(j) && i != j ==> !entry_is_for(
            entries[i],
            entries[j].hash,
            entries[j].type_id,
            entries[j].key,
        )
}

/// Whether every slot of `entries` is filed under the hash of its type and
/// key.
pub open spec fn filed_by_key_hash(entries: Map<usize, AssetEntry>) -> bool {
    forall|i: usize|
        #[trigger] entries.dom().contains(i) ==> entries[i].hash == key_hash(entries[i].type_id, entries[i].key)
}

/// The slot of `entries` that is filed under `hash` for `key` of `type_id`,
/// if there is one.
pub open spec fn lookup(entries: Map<usize, AssetEntry>, hash: u64, type_id: TypeId, key: Seq<char>) -> Option<usize> {
    if exists|i: usize| entries.dom().contains(i) && entry_is_for(#[trigger] entries[i], hash, type_id, key) {
        Some(choose|i: usize| entries.dom().contains(i) && entry_is_for(#[trigger] entries[i], hash, type_id, key))
    } else {
        None
    }
}

/// How a request for the key `key` of the type `type_id` leaves a table that
/// held `before` and would number its next slot `before_next`: the slot that
/// the answer names, and the entries and next number afterwards. A key that
/// the table holds names its slot and leaves the table as it was; any other
/// key gets a new slot, numbered `before_next`, for the allocation `alloc`.
pub open spec fn request_result(
    before: Map<usize, AssetEntry>,
    before_next: nat,
    after: Map<usize, AssetEntry>,
    after_next: nat,
    type_id: TypeId,
    key: Seq<char>,
    slot: usize,
    alloc: usize,
) -> bool {
    match lookup(before, key_hash(type_id, key), type_id, key) {
        Some(i) => after == before && after_next == before_next && slot == i,
        None => {
            &&& slot == before_next
            &&& after_next == before_next + 1
            &&& after == before.insert(
                slot,
                (AssetEntry { hash: key_hash(type_id, key), type_id, key, alloc, asset: after[slot].asset }),
            )
        },
    }
}

/// The entry that a stored slot stands for.
spec fn entry_of(slot: StoredSlot) -> AssetEntry {
    AssetEntry {
        hash: slot.key.hash_value(),
        type_id: slot.key.type_id_value(),
        key: slot.key.key_value()@,
        alloc: slot.erased.alloc_id(),
        asset: slot.erased.erased_asset(),
    }
}

/// A store of assets of any types, each under a type and a text key: a hash
/// index over slots that are numbered in the order they were made.
pub struct AssetTable {
    table: SlotTable,
    slots: Vec<Option<StoredSlot>>,
}

impl View for AssetTable {
    type V = Map<usize, AssetEntry>;

    /// The entries of the table, by slot number.
    closed spec fn view(&self) -> Map<usize, AssetEntry> {
        Map::new(
            |i: usize| i < self.slots.len() && self.slots@[i as int] is Some,
            |i: usize| entry_of(self.slots@[i as int].unwrap()),
        )
    }
}

impl AssetTable {
    /// The capacity that the table's index was made with.
    pub closed spec fn capacity(&self) -> nat {
        slot_table_capacity(self.table)
    }

    /// The number that the next slot made will get.
    pub closed spec fn next_slot(&self) -> nat {
        self.slots.len() as nat
    }

    /// The table's internal consistency: the index holds one entry per live
    /// slot, each for the slot's hash; every slot is filed under the hash of
    /// its type and key; and no two live slots are for the same type and key.
    pub closed spec fn wf(&self) -> bool {
        let items = slot_table_items(self.table);
        &&& slot_table_capacity(self.table) <= table_size_limit()
        &&& self@.dom().finite()
        &&& items.len() == self@.dom().len()
        &&& forall|e: (u64, usize)|
            #![trigger items.count(e)]
            items.count(e) > 0 ==> {
                &&& e.1 < self.slots.len()
                &&& self.slots@[e.1 as int] is Some
                &&& entry_of(self.slots@[e.1 as int].unwrap()).hash == e.0
            }
        &&& forall|i: int|
            #![trigger self.slots@[i]]
            0 <= i < self.slots.len() && self.slots@[i] is Some ==> items.count(
                (entry_of(self.slots@[i].unwrap()).hash, i as usize),
            ) == 1
        &&& filed_by_key_hash(self@)
        &&& keys_unique(self@)
    }

    /// Facts of a consistent table that its users may rely on: every slot is
    /// filed under the hash of its type and key, no two slots are for the same
    /// type and key, and every slot number in use is below `next_slot`.
    pub proof fn lemma_wf_facts(&self)
        requires
            self.wf(),
        ensures
            filed_by_key_hash(self@),
            keys_unique(self@),
            self@.dom().finite(),
            forall|i: usize| #[trigger] self@.dom().contains(i) ==> i < self.next_slot(),
    {
    }

    /// An empty table whose index has room for `capacity` entries.
    pub(crate) fn alloc_with_capacity(capacity: usize) -> (table: Self)
        requires
            capacity <= table_size_limit(),
        ensures
            table.wf(),
            table@ == Map::<usize, AssetEntry>::empty(),
            table.next_slot() == 0,
            table.capacity() == capacity,
    {
        let table = AssetTable { table: slot_table_with_capacity(capacity), slots: Vec::new() };
        assert(table@ =~= Map::<usize, AssetEntry>::empty());
        table
    }

    /// An empty table whose index has room for `capacity` entries.
    #[must_use]
    pub fn with_capacity(capacity: usize) -> (table: Self)
        requires
            capacity <= table_size_limit(),
        ensures
            table.wf(),
            table@ == Map::<usize, AssetEntry>::empty(),
            table.next_slot() == 0,
            table.capacity() == capacity,
    {
        Self::alloc_with_capacity(capacity)
    }

    /// An empty table whose index has room for four entries.
    #[must_use]
    pub fn new() -> (table: Self)
        ensures
            table.wf(),
            table@ == Map::<usize, AssetEntry>::empty(),
            table.next_slot() == 0,
            table.capacity() == 4,
    {
        Self::with_capacity(4)
    }

    /// The hash that the key `key` of the type `type_id` is filed under: both
    /// fed, in that order, to a fresh `DefaultHasher`.
    #[must_use]
    pub fn asset_key_hash(type_id: TypeId, key: &str) -> (hash: u64)
        ensures
            hash == key_hash(type_id, key@),
            hash == hasher_digest(seq![type_id_write(type_id)] + str_hash_writes(key@)),
    {
        let mut state = DefaultHasher::new();
        hash_type_id(&type_id, &mut state);
        hash_str(key, &mut state);
        assert(state@ =~= seq![vstd::bytes::spec_u64_to_le_bytes(type_id.value() as u64)] + str_hash_writes(key@));
        state.finish()
    }

    /// Removes the entry of the slot that `asset` was handed out for, when
    /// that slot is still live in this table, is the allocation that `asset`
    /// shares, and is filed under the hash of the asset's key. The asset
    /// itself lives on as long as handles on it do.
    pub fn unload<T: AssetType>(&mut self, asset: &Asset<String, T>)
        requires
            old(self).wf(),
        ensures
            final(self).wf(),
            final(self).capacity() == old(self).capacity(),
            final(self).next_slot() == old(self).next_slot(),
            if old(self)@.dom().contains(asset.slot_index()) && old(self)@[asset.slot_index()].hash
                == asset.key().hash_value() && old(self)@[asset.slot_index()].alloc == asset.alloc_id() {
                final(self)@ == old(self)@.remove(asset.slot_index())
            } else {
                final(self)@ == old(self)@
            },
    {
        let hash = asset.as_inner_ref().key.hash;
        let slot = asset.slot;
        let alloc = asset.alloc;
        let ghost items = slot_table_items(self.table);
        proof {
            if self@.dom().contains(slot) && self@[slot].hash == hash {
                assert(self.slots@[slot as int] is Some);
                assert(items.count((hash, slot)) == 1);
            }
        }
        if slot_table_remove(&mut self.table, hash, &self.slots, slot, alloc) {
            assert(items.count((hash, slot)) > 0);
            self.slots.set(slot, None);
            proof {
                let new_items = slot_table_items(self.table);
                assert(items.count((hash, slot)) == 1);
                assert(new_items.count((hash, slot)) == 0);
                assert forall|e: (u64, usize)| #[trigger] new_items.count(e) > 0 implies {
                    &&& e.1 < self.slots.len()
                    &&& self.slots@[e.1 as int] is Some
                    &&& entry_of(self.slots@[e.1 as int].unwrap()).hash == e.0
                } by {
                    assert(items.count(e) > 0);
                    if e.1 == slot {
                        assert(e == (hash, slot));
                    }
                }
                assert forall|i: int|
                    0 <= i < self.slots.len() && #[trigger] self.slots@[i] is Some implies new_items.count(
                    (entry_of(self.slots@[i].unwrap()).hash, i as usize),
                ) == 1 by {
                    assert(i != slot);
                    assert(old(self).slots@[i] is Some);
                    assert(items.count((entry_of(old(self).slots@[i].unwrap()).hash, i as usize)) == 1);
                }
                assert(self@ =~= old(self)@.remove(slot));
                assert(old(self)@.dom().contains(slot));
                assert(self@.dom() =~= old(self)@.dom().remove(slot));
                assert(new_items.len() == self@.dom().len());
                assert(filed_by_key_hash(self@)) by {
                    assert forall|i: usize| #[trigger] self@.dom().contains(i) implies self@[i].hash == key_hash(
                        self@[i].type_id,
                        self@[i].key,
                    ) by {
                        assert(old(self)@.dom().contains(i) && old(self)@[i] == self@[i]);
                    }
                }
                assert(keys_unique(self@)) by {
                    assert forall|i: usize, j: usize|
                        self@.dom().contains(i) && self@.dom().contains(j) && i != j implies !entry_is_for(
                        #[trigger] self@[i],
                        #[trigger] self@[j].hash,
                        self@[j].type_id,
                        self@[j].key,
                    ) by {
                        assert(old(self)@.dom().contains(i) && old(self)@.dom().contains(j));
                        assert(old(self)@[i] == self@[i] && old(self)@[j] == self@[j]);
                    }
                }
            }
        } else {
            assert(slot_table_items(self.table) =~= items);
        }
    }

    /// The asset of the type `T` stored for the key `key` of the type
    /// `type_id`. When the table holds none, `init` makes it, and it is stored
    /// in a new slot, numbered `next_slot`, filed under the hash that
    /// `asset_key_hash` gives. When the slot found holds an asset of another
    /// type than `T`, `init` makes an asset that the answer holds alone, and
    /// the table is left as it was.
    pub fn get_or_init_with_type<T: AssetType, F: FnOnce() -> T>(
        &mut self,
        type_id: TypeId,
        key: &str,
        init: F,
    ) -> (handle: Asset<String, T>)
        requires
            old(self).wf(),
            old(self)@.len() < table_size_limit(),
            init.requires(()),
        ensures
            final(self).wf(),
            final(self).capacity() == old(self).capacity(),
            request_result(
                old(self)@,
                old(self).next_slot(),
                final(self)@,
                final(self).next_slot(),
                type_id,
                key@,
                handle.slot_index(),
                handle.alloc_id(),
            ),
            match lookup(old(self)@, key_hash(type_id, key@), type_id, key@) {
                Some(i) => {
                    &&& answers_with_stored(old(self)@, i, handle.alloc_id(), handle.key(), handle.value())
                    &&& handle.alloc_id() == old(self)@[i].alloc || {
                        &&& init.ensures((), handle.value())
                        &&& handle.key().hash_value() == key_hash(type_id, key@)
                        &&& handle.key().type_id_value() == type_id
                        &&& handle.key().key_value()@ == key@
                    }
                },
                None => {
                    &&& init.ensures((), handle.value())
                    &&& handle.key().hash_value() == key_hash(type_id, key@)
                    &&& handle.key().type_id_value() == type_id
                    &&& handle.key().key_value()@ == key@
                    &&& erased_holds(final(self)@[handle.slot_index()].asset, handle.key(), handle.value())
                },
            },
    {
        let hash = Self::asset_key_hash(type_id, key);
        let ghost items = slot_table_items(self.table);
        match slot_table_find(&self.table, hash, &self.slots, type_id, key) {
            Some(found) => {
                let i = found.1;
                proof {
                    assert(self@.dom().contains(i));
                    assert(entry_is_for(self@[i], hash, type_id, key@));
                    let c = choose|c: usize|
                        self@.dom().contains(c) && entry_is_for(#[trigger] self@[c], hash, type_id, key@);
                    assert(self@.dom().contains(c) && entry_is_for(self@[c], hash, type_id, key@));
                    if c != i {
                        assert(!entry_is_for(self@[c], self@[i].hash, self@[i].type_id, self@[i].key));
                    }
                    assert(lookup(self@, hash, type_id, key@) == Some(i));
                }
                let stored = self.slots[i].as_ref().unwrap();
                let found_typed = stored.erased.typed::<String, T>();
                let handle = match found_typed {
                    Some(slot) => Asset::new(i, &slot),
                    None => {
                        let asset = init();
                        let alone = AssetSlot::with_key(AssetKey { hash, type_id, key: key.to_owned() }, asset);
                        Asset::new(i, &alone)
                    },
                };
                proof {
                    assert forall|k: AssetKey<String>, v: T|
                        #[trigger] erased_holds(self@[i].asset, k, v) implies handle.key() == k && handle.value() == v
                            && handle.alloc_id() == self@[i].alloc by {
                        let shared = choose|shared: Arc<AssetSlotInner<String, T>>|
                            #[trigger] erased_from(shared, self@[i].asset) && shared.key_of() == k && shared.asset_of() == v;
                        assert(erased_from(shared, stored.erased.erased_asset()));
                        assert(found_typed == Some(AssetSlot { inner: shared, alloc: stored.erased.alloc }));
                    }
                }
                handle
            },
            None => {
                proof {
                    assert forall|i: usize| self@.dom().contains(i) implies !entry_is_for(
                        #[trigger] self@[i],
                        hash,
                        type_id,
                        key@,
                    ) by {
                        if entry_is_for(self@[i], hash, type_id, key@) {
                            assert(self.slots@[i as int] is Some);
                            assert(items.count((hash, i)) == 1);
                            assert(slot_matches(self.slots@, (hash, i), hash, type_id, key@));
                        }
                    }
                    assert(lookup(self@, hash, type_id, key@) is None);
                }
                let asset = init();
                let n = self.slots.len();
                let made = AssetSlot::with_key(AssetKey { hash, type_id, key: key.to_owned() }, asset);
                let handle = Asset::new(n, &made);
                let ghost made_shared = made.shared();
                let record = StoredSlot { key: AssetKey { hash, type_id, key: key.to_owned() }, erased: made.erased() };
                let ghost stored_asset = record.erased.erased_asset();
                proof {
                    assert(erased_from(made_shared, stored_asset));
                    assert(erased_holds(stored_asset, handle.key(), handle.value()));
                }
                proof {
                    assert(!self@.dom().contains(n));
                }
                self.slots.push(Some(record));
                slot_table_insert(&mut self.table, (hash, n));
                proof {
                    let new_items = slot_table_items(self.table);
                    let entry = AssetEntry {
                        hash,
                        type_id,
                        key: key@,
                        alloc: handle.alloc_id(),
                        asset: stored_asset,
                    };
                    assert(items.count((hash, n)) == 0) by {
                        if items.count((hash, n)) > 0 {
                            assert((hash, n).1 < old(self).slots.len());
                        }
                    }
                    assert forall|e: (u64, usize)| #[trigger] new_items.count(e) > 0 implies {
                        &&& e.1 < self.slots.len()
                        &&& self.slots@[e.1 as int] is Some
                        &&& entry_of(self.slots@[e.1 as int].unwrap()).hash == e.0
                    } by {
                        if e != (hash, n) {
                            assert(items.count(e) > 0);
                            assert(self.slots@[e.1 as int] == old(self).slots@[e.1 as int]);
                        }
                    }
                    assert forall|i: int|
                        0 <= i < self.slots.len() && #[trigger] self.slots@[i] is Some implies new_items.count(
                        (entry_of(self.slots@[i].unwrap()).hash, i as usize),
                    ) == 1 by {
                        if i < n {
                            assert(self.slots@[i] == old(self).slots@[i]);
                            assert(items.count((entry_of(old(self).slots@[i].unwrap()).hash, i as usize)) == 1);
                        }
                    }
                    assert(self@ =~= old(self)@.insert(n, entry));
                    assert(self@.dom() =~= old(self)@.dom().insert(n));
                    assert(new_items.len() == self@.dom().len());
                    assert(filed_by_key_hash(self@)) by {
                        assert forall|i: usize| #[trigger] self@.dom().contains(i) implies self@[i].hash == key_hash(
                            self@[i].type_id,
                            self@[i].key,
                        ) by {
                            if i != n {
                                assert(old(self)@.dom().contains(i) && old(self)@[i] == self@[i]);
                            }
                        }
                    }
                    assert(keys_unique(self@)) by {
                        assert forall|i: usize, j: usize|
                            self@.dom().contains(i) && self@.dom().contains(j) && i != j implies !entry_is_for(
                            #[trigger] self@[i],
                            #[trigger] self@[j].hash,
                            self@[j].type_id,
                            self@[j].key,
                        ) by {
                            if i != n && j != n {
                                assert(old(self)@[i] == self@[i] && old(self)@[j] == self@[j]);
                                assert(old(self)@.dom().contains(i) && old(self)@.dom().contains(j));
                            } else if i == n {
                                assert(old(self)@.dom().contains(j));
                                assert(!entry_is_for(old(self)@[j], hash, type_id, key@));
                            } else {
                                assert(old(self)@.dom().contains(i));
                                assert(!entry_is_for(old(self)@[i], hash, type_id, key@));
                            }
                        }
                    }
                }
                handle
            },
        }
    }

    /// The asset of the type `T` stored for the key `key`, filed under the
    /// identifier that `TypeId::of::<T>()` gives: what `get_or_init_with_type`
    /// answers for that identifier.
    pub fn get_or_init<T: AssetType, F: FnOnce() -> T>(&mut self, key: &str, init: F) -> (handle: Asset<String, T>)
        requires
            old(self).wf(),
            old(self)@.len() < table_size_limit(),
            init.requires(()),
        ensures
            final(self).wf(),
            final(self).capacity() == old(self).capacity(),
            exists|type_id: TypeId|
                {
                    &&& call_ensures(TypeId::of::<T>, (), type_id)
                    &&& request_result(
                        old(self)@,
                        old(self).next_slot(),
                        final(self)@,
                        final(self).next_slot(),
                        type_id,
                        key@,
                        handle.slot_index(),
                        handle.alloc_id(),
                    )
                    &&& match lookup(old(self)@, key_hash(type_id, key@), type_id, key@) {
                        Some(i) => {
                            &&& answers_with_stored(old(self)@, i, handle.alloc_id(), handle.key(), handle.value())
                            &&& (handle.alloc_id() == old(self)@[i].alloc || init.ensures((), handle.value()))
                        },
                        None => {
                            &&& init.ensures((), handle.value())
                            &&& handle.key().type_id_value() == type_id
                            &&& handle.key().key_value()@ == key@
                            &&& erased_holds(final(self)@[handle.slot_index()].asset, handle.key(), handle.value())
                        },
                    }
                },
    {
        let type_id = TypeId::of::<T>();
        assert(call_ensures(TypeId::of::<T>, (), type_id));
        self.get_or_init_with_type(type_id, key, init)
    }
}

/// Asking twice for the same type and key: the second request finds the slot
/// that the first one found or made, with its allocation and its asset.
pub proof fn lemma_second_request_finds_first(
    entries: Map<usize, AssetEntry>,
    next: usize,
    type_id: TypeId,
    key: Seq<char>,
    alloc: usize,
    asset: ErasedAsset,
)
    requires
        keys_unique(entries),
        !entries.dom().contains(next),
    ensures
        ({
            let hash = key_hash(type_id, key);
            let first = lookup(entries, hash, type_id, key);
            let after = match first {
                Some(_) => entries,
                None => entries.insert(next, (AssetEntry { hash, type_id, key, alloc, asset })),
            };
            let slot = match first {
                Some(i) => i,
                None => next,
            };
            &&& keys_unique(after)
            &&& lookup(after, hash, type_id, key) == Some(slot)
            &&& after[slot] == match first {
                Some(i) => entries[i],
                None => (AssetEntry { hash, type_id, key, alloc, asset }),
            }
        }),
{
    let hash = key_hash(type_id, key);
    let first = lookup(entries, hash, type_id, key);
    if first is None {
        let entry = AssetEntry { hash, type_id, key, alloc, asset };
        let after = entries.insert(next, entry);
        assert(after.dom().contains(next) && entry_is_for(after[next], hash, type_id, key));
        assert forall|i: usize, j: usize|
            after.dom().contains(i) && after.dom().contains(j) && i != j implies !entry_is_for(
            #[trigger] after[i],
            #[trigger] after[j].hash,
            after[j].type_id,
            after[j].key,
        ) by {
            if i != next && j != next {
                assert(entries.dom().contains(i) && entries.dom().contains(j));
            } else if i == next {
                assert(entries.dom().contains(j));
                assert(!entry_is_for(entries[j], hash, type_id, key));
            } else {
                assert(entries.dom().contains(i));
                assert(!entry_is_for(entries[i], hash, type_id, key));
            }
        }
        let c = choose|c: usize| after.dom().contains(c) && entry_is_for(#[trigger] after[c], hash, type_id, key);
        if c != next {
            assert(entries.dom().contains(c) && entries[c] == after[c]);
        }
    } else {
        let i = first.unwrap();
        assert(entries.dom().contains(i) && entry_is_for(entries[i], hash, type_id, key));
    }
}

/// Two requests for the same type and key, where the first answered with the
/// asset that the slot it names holds (as a request that made the slot always
/// does): the second request names the same slot, leaves the table as it was,
/// and answers with the same asset, under the same key, in the same
/// allocation.
pub proof fn lemma_second_request_returns_first_asset<T: AssetType>(
    e0: Map<usize, AssetEntry>,
    n0: nat,
    e1: Map<usize, AssetEntry>,
    n1: nat,
    e2: Map<usize, AssetEntry>,
    n2: nat,
    type_id: TypeId,
    key: Seq<char>,
    slot1: usize,
    alloc1: usize,
    key1: AssetKey<String>,
    asset1: T,
    slot2: usize,
    alloc2: usize,
    key2: AssetKey<String>,
    asset2: T,
)
    requires
        keys_unique(e0),
        forall|i: usize| #[trigger] e0.dom().contains(i) ==> i < n0,
        request_result(e0, n0, e1, n1, type_id, key, slot1, alloc1),
        erased_holds(e1[slot1].asset, key1, asset1),
        request_result(e1, n1, e2, n2, type_id, key, slot2, alloc2),
        lookup(e1, key_hash(type_id, key), type_id, key) matches Some(i) ==> answers_with_stored(
            e1,
            i,
            alloc2,
            key2,
            asset2,
        ),
    ensures
        slot2 == slot1,
        e2 == e1,
        n2 == n1,
        key2 == key1,
        asset2 == asset1,
        alloc2 == e1[slot1].alloc,
{
    let hash = key_hash(type_id, key);
    if lookup(e0, hash, type_id, key) is None {
        assert(!e0.dom().contains(slot1));
        lemma_second_request_finds_first(e0, slot1, type_id, key, alloc1, e1[slot1].asset);
    }
    assert(lookup(e1, hash, type_id, key) == Some(slot1));
}

/// The hash a key is filed under is the digest of a fresh `DefaultHasher`
/// fed the type's write and then what hashing the key's text writes: equal
/// types and texts give equal hashes, and every character of the key counts.
pub proof fn lemma_key_hash_feeds_type_then_text(type_id: TypeId, key: Seq<char>)
    ensures
        key_hash(type_id, key) == hasher_digest(seq![type_id_write(type_id)] + str_hash_writes(key)),
{
}

/// What `unload` leaves: every slot other than the unloaded one is still
/// there, with the same hash, type, key, allocation and asset.
pub proof fn lemma_unload_keeps_other_slots(
    before: Map<usize, AssetEntry>,
    after: Map<usize, AssetEntry>,
    slot: usize,
)
    requires
        after == before.remove(slot) || after == before,
    ensures
        forall|j: usize|
            #[trigger] before.dom().contains(j) && j != slot ==> after.dom().contains(j) && after[j] == before[j],
        forall|j: usize| #[trigger] after.dom().contains(j) ==> before.dom().contains(j),
{
}

/// Storing an entry for one type and key leaves what a request for another
/// type or key finds as it was: one key under two types names two slots.
pub proof fn lemma_other_request_unaffected(
    entries: Map<usize, AssetEntry>,
    next: usize,
    entry: AssetEntry,
    type_id: TypeId,
    key: Seq<char>,
)
    requires
        keys_unique(entries),
        !entries.dom().contains(next),
        entry.type_id != type_id || entry.key != key,
    ensures
        lookup(entries.insert(next, entry), key_hash(type_id, key), type_id, key) == lookup(
            entries,
            key_hash(type_id, key),
            type_id,
            key,
        ),
{
    let hash = key_hash(type_id, key);
    let after = entries.insert(next, entry);
    if exists|i: usize| entries.dom().contains(i) && entry_is_for(#[trigger] entries[i], hash, type_id, key) {
        let w = choose|i: usize| entries.dom().contains(i) && entry_is_for(#[trigger] entries[i], hash, type_id, key);
        assert(after.dom().contains(w) && entry_is_for(after[w], hash, type_id, key));
        let c = choose|i: usize| after.dom().contains(i) && entry_is_for(#[trigger] after[i], hash, type_id, key);
        assert(c != next);
        assert(entries.dom().contains(c) && entries[c] == after[c]);
        if c != w {
            assert(!entry_is_for(entries[c], entries[w].hash, entries[w].type_id, entries[w].key));
        }
    } else {
        if exists|i: usize| after.dom().contains(i) && entry_is_for(#[trigger] after[i], hash, type_id, key) {
            let c = choose|i: usize| after.dom().contains(i) && entry_is_for(#[trigger] after[i], hash, type_id, key);
            assert(c != next);
            assert(entries.dom().contains(c) && entries[c] == after[c]);
        }
    }
}

/// After a slot leaves the table, asking for its hash, type and key finds
/// nothing, and no two of the remaining slots share a hash, type and key.
pub proof fn lemma_removed_slot_is_not_found(entries: Map<usize, AssetEntry>, slot: usize)
    requires
        keys_unique(entries),
        entries.dom().contains(slot),
    ensures
        keys_unique(entries.remove(slot)),
        lookup(entries.remove(slot), entries[slot].hash, entries[slot].type_id, entries[slot].key) is None,
{
    let after = entries.remove(slot);
    let e = entries[slot];
    assert forall|i: usize, j: usize|
        after.dom().contains(i) && after.dom().contains(j) && i != j implies !entry_is_for(
        #[trigger] after[i],
        #[trigger] after[j].hash,
        after[j].type_id,
        after[j].key,
    ) by {
        assert(entries.dom().contains(i) && entries.dom().contains(j));
        assert(entries[i] == after[i] && entries[j] == after[j]);
    }
    assert forall|i: usize| after.dom().contains(i) implies !entry_is_for(
        #[trigger] after[i],
        e.hash,
        e.type_id,
        e.key,
    ) by {
        assert(entries.dom().contains(i) && i != slot && entries[i] == after[i]);
        assert(!entry_is_for(entries[i], entries[slot].hash, entries[slot].type_id, entries[slot].key));
    }
}

} // verus!
