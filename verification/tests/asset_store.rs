use clowncar::asset_store::AssetTable;
use clowncar::util::TypeId;

#[test]
fn asset_store_test() {
    let mut store = AssetTable::new();
    let asset1 = store.get_or_init("test", || "hello, world 1");
    let asset2 = store.get_or_init("test", || "hello, world 2");
    println!("{}", asset1.as_ref());
    println!("{}", asset2.as_ref());
    assert_eq!(*asset1.as_ref(), "hello, world 1");
    assert_eq!(*asset2.as_ref(), "hello, world 1");
}

#[test]
fn second_request_does_not_call_init() {
    let mut store = AssetTable::new();
    let first = store.get_or_init("a", || 1);
    let second = store.get_or_init("a", || -> i32 { panic!("the asset is already stored") });
    assert_eq!(*first, 1);
    assert_eq!(*second, 1);
}

#[test]
fn different_keys_get_different_assets() {
    let mut store = AssetTable::with_capacity(0);
    let a = store.get_or_init("a", || 1);
    let b = store.get_or_init("b", || 2);
    let a_again = store.get_or_init("a", || 3);
    let b_again = store.get_or_init("b", || 4);
    assert_eq!((*a, *b, *a_again, *b_again), (1, 2, 1, 2));
}

#[test]
fn many_keys_survive_growth() {
    let mut store = AssetTable::new();
    for i in 0..200usize {
        let key = format!("key {}", i);
        let asset = store.get_or_init(&key, || i * 10);
        assert_eq!(*asset, i * 10);
    }
    for i in 0..200usize {
        let key = format!("key {}", i);
        let asset = store.get_or_init(&key, || usize::MAX);
        assert_eq!(*asset, i * 10);
    }
}

#[test]
fn unload_then_request_makes_a_new_asset() {
    let mut store = AssetTable::new();
    let first = store.get_or_init("a", || 1);
    store.unload(&first);
    let second = store.get_or_init("a", || 2);
    assert_eq!(*second, 2);
    assert_eq!(*first, 1);
}

#[test]
fn unload_of_a_stale_handle_keeps_the_new_entry() {
    let mut store = AssetTable::new();
    let first = store.get_or_init("a", || 1);
    store.unload(&first);
    let second = store.get_or_init("a", || 2);
    store.unload(&first);
    let third = store.get_or_init("a", || 3);
    assert_eq!(*second, 2);
    assert_eq!(*third, 2);
}

#[test]
fn unload_leaves_other_keys() {
    let mut store = AssetTable::new();
    let a = store.get_or_init("a", || 1);
    let _b = store.get_or_init("b", || 2);
    store.unload(&a);
    let b_again = store.get_or_init("b", || 5);
    assert_eq!(*b_again, 2);
}

#[test]
fn request_with_type_is_keyed_by_type_and_key() {
    let mut store = AssetTable::new();
    let t = TypeId::of::<u32>();
    let u = TypeId::of::<u64>();
    let a = store.get_or_init_with_type(t, "k", || 1);
    let same = store.get_or_init_with_type(t, "k", || 2);
    let other_type = store.get_or_init_with_type(u, "k", || 3);
    let other_key = store.get_or_init_with_type(t, "l", || 4);
    let other_type_again = store.get_or_init_with_type(u, "k", || 5);
    assert_eq!((*a, *same, *other_type, *other_key, *other_type_again), (1, 1, 3, 4, 3));
}

#[test]
fn request_with_the_table_type_finds_get_or_init_entries() {
    let mut store = AssetTable::new();
    let a = store.get_or_init("k", || 1u32);
    let again = store.get_or_init_with_type(TypeId::of::<u32>(), "k", || 2u32);
    assert_eq!((*a, *again), (1, 1));
}

#[test]
fn unload_ignores_a_handle_of_another_table() {
    let mut first = AssetTable::new();
    let mut second = AssetTable::new();
    let a = first.get_or_init("k", || 1);
    let _b = second.get_or_init("k", || 2);
    second.unload(&a);
    let b_again = second.get_or_init("k", || 3);
    assert_eq!(*b_again, 2);
    first.unload(&a);
    let a_new = first.get_or_init("k", || 4);
    assert_eq!(*a_new, 4);
}

#[test]
fn asset_key_hash_is_stable_within_a_run() {
    let t = TypeId::of::<String>();
    let h1 = AssetTable::asset_key_hash(t, "key");
    let h2 = AssetTable::asset_key_hash(t, "key");
    assert_eq!(h1, h2);
}

#[test]
fn handles_outlive_the_table() {
    let handle = {
        let mut store = AssetTable::new();
        store.get_or_init("s", || String::from("kept"))
    };
    assert_eq!(handle.as_ref(), "kept");
}

#[test]
fn asset_key_hash_tells_keys_apart() {
    let t = TypeId::of::<u32>();
    let a = AssetTable::asset_key_hash(t, "a");
    let b = AssetTable::asset_key_hash(t, "b");
    assert_ne!(a, b);
}

#[test]
fn asset_key_hash_tells_types_apart() {
    let a = AssetTable::asset_key_hash(TypeId::of::<u32>(), "a");
    let b = AssetTable::asset_key_hash(TypeId::of::<u64>(), "a");
    assert_ne!(a, b);
}

#[test]
fn one_key_under_two_types_names_two_assets() {
    let mut store = AssetTable::new();
    let a = store.get_or_init("k", || 1u32);
    let b = store.get_or_init("k", || "x");
    let a_again = store.get_or_init("k", || 2u32);
    let b_again = store.get_or_init("k", || "y");
    assert_eq!((*a, *b, *a_again, *b_again), (1, "x", 1, "x"));
}

#[test]
fn unload_leaves_the_same_key_of_another_type() {
    let mut store = AssetTable::new();
    let a = store.get_or_init("k", || 1u32);
    let _b = store.get_or_init("k", || String::from("text"));
    store.unload(&a);
    let b_again = store.get_or_init("k", || String::from("other"));
    let a_new = store.get_or_init("k", || 2u32);
    assert_eq!((b_again.as_str(), *a_new), ("text", 2));
}
