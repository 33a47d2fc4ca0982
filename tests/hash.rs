use wineyard::hash;
use wineyard::hash::AsHash;
use wineyard::format::ResourceFormat;
use wineyard::lock_file::{LockFile, LockFileInfo, ResourceLock, ResourceLockData};

#[test]
fn as_hash() {
    assert_eq!(123456789_u64.hash(), hash::Hash(16531472742531055538));
    assert_eq!("Hello, World!".hash(), hash::Hash(3369351306556737277));
    assert_eq!(Some(123456_u32).hash(), hash::Hash(13440295563441507171));
    assert_eq!(None::<String>.hash(), hash::Hash(0));
    assert_eq!([1_i16, -2, 3].hash(), hash::Hash(7455816351535058648));
}

#[test]
fn base32() {
    assert_eq!(hash::Hash::for_slice(b"Hello, World!").to_base32(), "5r15eab6q03fq");
    assert_eq!(hash::Hash::from_base32("5r15eab6q03fq"), Some(hash::Hash(3369351306556737277)));
    assert_eq!(hash::Hash::from_base32("Hello, World!"), None);
}

#[test]
fn base32_round_trip_of_extremes() {
    for v in [0_u64, 1, u64::MAX, 1 << 63, 0x0123_4567_89ab_cdef] {
        let text = hash::Hash(v).to_base32();
        assert_eq!(text.len(), 13);
        assert_eq!(hash::Hash::from_base32(&text), Some(hash::Hash(v)));
    }
    assert_eq!(hash::Hash(0).to_base32(), "0000000000000");
}

#[test]
fn base32_rejects_bad_text() {
    assert_eq!(hash::Hash::from_base32(""), None);
    assert_eq!(hash::Hash::from_base32("000000000000"), None);
    assert_eq!(hash::Hash::from_base32("00000000000000"), None);
    // The last digit carries one padding bit, which must be zero.
    assert_eq!(hash::Hash::from_base32("0000000000001"), None);
    assert_eq!(hash::Hash::from_base32("000000000000w"), None);
}

#[test]
fn chain_is_xor() {
    let a = hash::Hash(0b1100);
    let b = hash::Hash(0b1010);
    assert_eq!(a.chain(b), hash::Hash(0b0110));
    assert_eq!(a.chain(a), hash::Hash(0));
}

#[test]
fn tree_hash_ignores_walk_order() {
    let e1 = hash::TreeEntry { path: b"a".to_vec(), content: Some(hash::Hash::for_slice(b"x")) };
    let e2 = hash::TreeEntry { path: b"b".to_vec(), content: None };
    let e3 = hash::TreeEntry { path: b"b/c".to_vec(), content: Some(hash::Hash::for_slice(b"y")) };
    let h1 = hash::tree_hash(&[e1.clone(), e2.clone(), e3.clone()]);
    let h2 = hash::tree_hash(&[e3.clone(), e1.clone(), e2.clone()]);
    assert_eq!(h1, h2);
    let expected = hash::Hash::for_slice(b"a").0
        ^ hash::Hash::for_slice(b"x").0
        ^ hash::Hash::for_slice(b"b").0
        ^ hash::Hash::for_slice(b"b/c").0
        ^ hash::Hash::for_slice(b"y").0;
    assert_eq!(h1, hash::Hash(expected));
    assert_eq!(hash::tree_hash(&[]), hash::Hash(0));
}

#[test]
fn for_slice_is_seahash() {
    assert_ne!(hash::Hash::for_slice(b"abc"), hash::Hash::for_slice(b"abd"));
    assert_eq!(hash::Hash::for_slice(b"Hello, World!"), hash::Hash(3369351306556737277));
}

#[test]
fn structured_hashes_are_xor_of_parts() {
    let refs_a = vec![("x".to_string(), 1_u32), ("y".to_string(), 2_u32)];
    let refs_b = vec![("y".to_string(), 2_u32), ("x".to_string(), 1_u32)];
    // Tables hash the same whatever their order.
    assert_eq!(refs_a.hash(), refs_b.hash());
    let resource = ResourceLock {
        url: "u".to_string(),
        format: ResourceFormat::File,
        lock: ResourceLockData { hash: hash::Hash(5), size: 1 },
        inputs: None,
        outputs: None,
    };
    let expected = "u".hash().0 ^ hash::Hash::for_slice(b"file").0 ^ 5;
    assert_eq!(resource.hash(), hash::Hash(expected));
    let lock = LockFile { lock: LockFileInfo { root: vec![0] }, resources: vec![resource] };
    assert_eq!(lock.hash(), hash::Hash(0_u32.hash().0 ^ expected));
}
