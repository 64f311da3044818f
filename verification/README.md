# clowncar

An asset store that files assets of any types under a type identifier and a
text key.

- `src/util.rs`: `TypeId`, a type identifier held as a machine word, and the
  hashing helpers that feed a `DefaultHasher`.
- `src/key.rs`: `AssetKey`, a type, a user key and their hash.
- `src/asset_slot.rs`: shared slots that hold a key and an asset, their
  type-erased form, and the `Asset` handles given out for them.
- `src/asset_store.rs`: `AssetTable`, a `hashbrown::HashTable` index over
  numbered, type-erased slots, with `get_or_init` and `unload`, its model
  (`Map<usize, AssetEntry>`), its consistency predicate and its laws.
- `src/ident.rs`: `Ident`, a text kept inline up to 14 bytes and on the heap
  beyond.
- `tests/`: scenarios run against the compiled library.
