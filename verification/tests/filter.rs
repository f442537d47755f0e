use cuckoofilter::{CuckooFilter, FilterError};

#[test]
fn test_insert_lookup_delete() {
    let mut f = CuckooFilter::new();
    let test_str = String::from("Haha");
    let item = test_str.as_bytes();
    assert!(f.lookup(item) == false);
    assert!(f.insert(item).unwrap_or(false) == true);
    assert_eq!(f.get_size(), 1);
    assert!(f.lookup(item) == true);
    assert!(f.insert(item).unwrap_or(false) == true);
    assert!(f.insert(item).unwrap_or(false) == true);
    assert_eq!(f.get_size(), 3);
    assert!(f.lookup(item) == true);
    assert!(f.delete(item) == true);
    assert_eq!(f.get_size(), 2);
    assert!(f.lookup(item) == true);
    assert!(f.delete(item) == true);
    assert_eq!(f.get_size(), 1);
    assert!(f.lookup(item) == true);
    assert!(f.delete(item) == true);
    assert_eq!(f.get_size(), 0);
    assert!(f.lookup(item) == false);
}

#[test]
fn test_lookup_idempotent() {
    let mut f = CuckooFilter::with_bucket_size(100);
    assert!(f.insert(b"x").unwrap());
    let first = f.lookup(b"x");
    let second = f.lookup(b"x");
    assert_eq!(first, second);
    assert!(first);
    let absent_first = f.lookup(b"y");
    let absent_second = f.lookup(b"y");
    assert_eq!(absent_first, absent_second);
}

#[test]
fn test_duplicate_counting() {
    let mut f = CuckooFilter::with_bucket_size(50);
    // Four copies always fit: even when both candidate buckets coincide,
    // that one bucket has four slots.
    for k in 0..4 {
        assert!(f.insert(b"dup").unwrap());
        assert_eq!(f.get_size(), k + 1);
    }
    // After up to three deletes a copy remains and stays visible.
    for k in 0..3 {
        assert!(f.delete(b"dup"));
        assert_eq!(f.get_size(), 3 - k);
        assert!(f.lookup(b"dup"));
    }
    assert!(f.delete(b"dup"));
    assert_eq!(f.get_size(), 0);
}

#[test]
fn test_delete_reverses_insert() {
    let mut f = CuckooFilter::with_bucket_size(100);
    assert!(f.insert(b"first").unwrap());
    let size_before = f.get_size();
    assert!(f.insert(b"second").unwrap());
    assert_eq!(f.get_size(), size_before + 1);
    assert!(f.delete(b"second"));
    assert_eq!(f.get_size(), size_before);
}

#[test]
fn test_delete_missing_reports_false() {
    let mut f = CuckooFilter::with_bucket_size(100);
    assert!(f.insert(b"kept").unwrap());
    // An empty filter bucket pair almost never matches a random fingerprint,
    // but the contract only ties the report to a fingerprint match, so only
    // the size bookkeeping is asserted on both outcomes.
    let removed = f.delete(b"never inserted");
    if removed {
        assert_eq!(f.get_size(), 0);
    } else {
        assert_eq!(f.get_size(), 1);
    }
}

#[test]
fn test_single_bucket_scenario() {
    let mut f = CuckooFilter::with_bucket_size(1);
    assert_eq!(f.get_capacity(), 4);
    let items = ["a", "b", "c", "d"];
    for it in items.iter() {
        assert_eq!(f.insert(it.as_bytes()).unwrap(), true);
    }
    assert_eq!(f.get_size(), 4);
    // A fifth distinct item must run the kick loop; whether it lands depends
    // on the hash placement, but the size must track successes exactly.
    match f.insert(b"e") {
        Ok(ok) => {
            assert!(ok);
            assert_eq!(f.get_size(), 5);
        }
        Err(e) => {
            assert_eq!(e, FilterError::FilterFull);
            assert_eq!(f.get_size(), 4);
        }
    }
}

#[test]
fn test_capacity_exhaustion_keeps_filter_usable() {
    let mut f = CuckooFilter::with_bucket_size(2);
    assert_eq!(f.get_capacity(), 8);
    let mut successes: usize = 0;
    let mut full = false;
    let mut i: u32 = 0;
    while i < 2000 {
        let item = format!("item-{}", i);
        match f.insert(item.as_bytes()) {
            Ok(ok) => {
                assert!(ok);
                successes += 1;
            }
            Err(e) => {
                assert_eq!(e, FilterError::FilterFull);
                full = true;
                break;
            }
        }
        i += 1;
    }
    assert!(full);
    assert_eq!(f.get_size(), successes);
    // The first failure needs a full candidate bucket, so at least half the
    // capacity was reached.
    assert!(successes >= 4);
    // The filter stays usable after the full error.
    let _ = f.lookup(b"item-0");
    let removed = f.delete(b"item-0");
    if removed {
        assert_eq!(f.get_size(), successes - 1);
    } else {
        assert_eq!(f.get_size(), successes);
    }
    let _ = f.lookup(b"item-1");
}

#[test]
fn test_bounded_false_positive_rate() {
    let mut f = CuckooFilter::with_bucket_size(1000);
    // Load to at most 95% of the 4000-slot capacity.
    let target: usize = 3800;
    let mut inserted: usize = 0;
    let mut i: u32 = 0;
    while inserted < target && i < 4200 {
        let item = format!("member-{}", i);
        if f.insert(item.as_bytes()).is_ok() {
            inserted += 1;
        } else {
            break;
        }
        i += 1;
    }
    // Probe distinct never-inserted controls. The theoretical rate for a
    // one-byte fingerprint and four-slot buckets is about 2 * 4 / 256, i.e.
    // roughly 3%; allow a wide safety factor to keep the test stable.
    let mut false_positives: usize = 0;
    for j in 0..2000u32 {
        let probe = format!("control-{}", j);
        if f.lookup(probe.as_bytes()) {
            false_positives += 1;
        }
    }
    assert!(false_positives <= 300);
}
