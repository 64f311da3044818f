use clowncar::key::AssetKey;
use clowncar::util::TypeId;

#[test]
fn type_id_is_the_same_for_one_type() {
    assert_eq!(TypeId::of::<u32>(), TypeId::of::<u32>());
    assert_eq!(TypeId::of::<u32>().inner(), TypeId::of::<u32>().inner());
}

#[test]
fn type_id_differs_between_types() {
    assert_ne!(TypeId::of::<u32>(), TypeId::of::<u64>());
    assert_ne!(TypeId::of::<String>().inner(), TypeId::of::<&'static str>().inner());
}

#[test]
fn asset_key_eq_matches_its_own_type_and_key() {
    let t = TypeId::of::<u8>();
    let key = AssetKey::new(t, String::from("name"));
    assert!(key.eq(&t, &String::from("name")));
}

#[test]
fn asset_key_eq_rejects_other_type() {
    let t = TypeId::of::<u8>();
    let u = TypeId::of::<u16>();
    let key = AssetKey::new(t, String::from("name"));
    assert!(!key.eq(&u, &String::from("name")));
}

#[test]
fn asset_key_eq_rejects_other_key() {
    let t = TypeId::of::<u8>();
    let key = AssetKey::new(t, String::from("name"));
    assert!(!key.eq(&t, &String::from("other")));
}

#[test]
fn key_hash_is_stable_within_a_run() {
    let t = TypeId::of::<u8>();
    let a = AssetKey::<String>::hash(&t, &String::from("name"));
    let b = AssetKey::<String>::hash(&t, &String::from("name"));
    assert_eq!(a, b);
}

#[test]
fn asset_key_hash_agrees_with_the_table_hash() {
    let t = TypeId::of::<u8>();
    let a = AssetKey::<String>::hash(&t, &String::from("name"));
    let b = clowncar::asset_store::AssetTable::asset_key_hash(t, "name");
    assert_eq!(a, b);
}

#[test]
fn key_hash_tells_keys_apart() {
    let t = TypeId::of::<u8>();
    let a = AssetKey::<String>::hash(&t, &String::from("one"));
    let b = AssetKey::<String>::hash(&t, &String::from("two"));
    assert_ne!(a, b);
}
