use cuckoofilter::{get_hash, Bucket, FingerPrint, HashKeys};

fn some_nonzero_fingerprint(keys: &HashKeys) -> FingerPrint {
    let candidates = ["a", "b", "c", "d", "e", "f", "g", "h"];
    for it in candidates.iter() {
        let fp = FingerPrint::gen_finger_print(it.as_bytes(), keys);
        if !fp.is_empty() {
            return fp;
        }
    }
    panic!("every candidate item hashed to the sentinel fingerprint");
}

#[test]
fn test_get_hash_keyed_and_deterministic() {
    let keys = HashKeys { k0: 1, k1: 2 };
    let other_keys = HashKeys { k0: 3, k1: 4 };
    assert_eq!(get_hash(b"abc", &keys), get_hash(b"abc", &keys));
    assert_ne!(get_hash(b"abc", &keys), get_hash(b"abd", &keys));
    assert_ne!(get_hash(b"abc", &keys), get_hash(b"abc", &other_keys));
}

#[test]
fn test_fingerprint_generation() {
    let keys = HashKeys { k0: 11, k1: 12 };
    let a1 = FingerPrint::gen_finger_print(b"hello", &keys);
    let a2 = FingerPrint::gen_finger_print(b"hello", &keys);
    assert!(a1 == a2);
    assert!(FingerPrint::empty().is_empty());
    // The fingerprint keeps only the high byte of the hash, so two items
    // with different hashes may or may not collide, but the derivation is
    // a pure function of keys and bytes.
    let b1 = FingerPrint::gen_finger_print(b"world", &keys);
    let b2 = FingerPrint::gen_finger_print(b"world", &keys);
    assert!(b1 == b2);
}

#[test]
fn test_bucket_put_get_remove() {
    let keys = HashKeys { k0: 21, k1: 22 };
    let fp = some_nonzero_fingerprint(&keys);
    let mut b = Bucket::new();
    assert!(!b.get(&fp));
    assert!(b.put(fp));
    assert!(b.get(&fp));
    assert!(b.put(fp));
    assert!(b.put(fp));
    assert!(b.put(fp));
    // All four slots are taken now.
    assert!(!b.put(fp));
    // Removal takes out one occurrence at a time.
    assert!(b.remove(&fp));
    assert!(b.get(&fp));
    // A slot is free again, so a put succeeds.
    assert!(b.put(fp));
    assert!(b.remove(&fp));
    assert!(b.remove(&fp));
    assert!(b.remove(&fp));
    assert!(b.remove(&fp));
    assert!(!b.remove(&fp));
    assert!(!b.get(&fp));
}

#[test]
fn test_bucket_get_on_fresh_bucket() {
    let keys = HashKeys { k0: 31, k1: 32 };
    let fp = some_nonzero_fingerprint(&keys);
    let b = Bucket::new();
    // A fresh bucket holds only sentinels, so a non-sentinel fingerprint is
    // not found, while the sentinel itself matches the free slots.
    assert!(!b.get(&fp));
    assert!(b.get(&FingerPrint::empty()));
}
