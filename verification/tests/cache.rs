use toroidal_tql::cache::{hash_bits, CacheError, HashMemory};

fn bits(v: &[f32]) -> Vec<u32> {
    v.iter().map(|x| x.to_bits()).collect()
}

#[test]
fn test_hash_memory_round_trip() {
    let mut cache = HashMemory::new(4);
    let key = bits(&[0.1, 0.2, 0.3, 0.4]);
    let value = vec![1, 2, 3, 4];
    cache.store(&key, value.clone()).unwrap();
    let result = cache.recall(&key).unwrap();
    assert_eq!(result, Some(value));
}

#[test]
fn test_hash_memory_miss() {
    let mut cache = HashMemory::new(4);
    cache.store(&bits(&[0.1, 0.2, 0.3, 0.4]), vec![1]).unwrap();
    let result = cache.recall(&bits(&[0.5, 0.6, 0.7, 0.8])).unwrap();
    assert_eq!(result, None);
}

#[test]
fn test_hash_memory_dim_mismatch() {
    let mut cache = HashMemory::new(4);
    let result = cache.store(&bits(&[0.1, 0.2, 0.3]), vec![1]);
    assert!(result.is_err());
}

#[test]
fn dimension_mismatch_carries_sizes() {
    let mut cache = HashMemory::new(4);
    assert_eq!(
        cache.store(&bits(&[0.1, 0.2, 0.3]), vec![1]),
        Err(CacheError::DimensionMismatch { expected: 4, actual: 3 })
    );
    assert_eq!(cache.recall(&bits(&[0.1])), Err(CacheError::DimensionMismatch { expected: 4, actual: 1 }));
    assert_eq!(cache.len(), 0);
}

#[test]
fn keys_differing_in_any_component_do_not_match() {
    let mut cache = HashMemory::new(4);
    cache.store(&bits(&[0.1, 0.2, 0.3, 0.4]), vec![9]).unwrap();
    assert_eq!(cache.recall(&bits(&[0.1, 0.2, 0.3, 0.5])).unwrap(), None);
    assert_eq!(cache.recall(&bits(&[0.1, 0.2, 0.35, 0.4])).unwrap(), None);
    assert_eq!(cache.recall(&bits(&[-0.1, 0.2, 0.3, 0.4])).unwrap(), None);
}

#[test]
fn first_value_wins_and_len_counts_stores() {
    let mut cache = HashMemory::new(2);
    let k = bits(&[1.0, 2.0]);
    cache.store(&k, vec![1]).unwrap();
    cache.store(&k, vec![2]).unwrap();
    assert_eq!(cache.recall(&k).unwrap(), Some(vec![1]));
    assert_eq!(cache.len(), 2);
    assert!(!cache.is_empty());
    assert_eq!(cache.dim(), 2);
}

#[test]
fn clear_forgets_everything() {
    let mut cache = HashMemory::new(2);
    let k = bits(&[1.0, 2.0]);
    cache.store(&k, vec![1]).unwrap();
    cache.clear();
    assert_eq!(cache.len(), 0);
    assert!(cache.is_empty());
    assert_eq!(cache.recall(&k).unwrap(), None);
}

#[test]
fn hash_depends_on_the_bits() {
    assert_eq!(hash_bits(&[1, 2, 3]), hash_bits(&[1, 2, 3]));
    assert_ne!(hash_bits(&[1, 2, 3]), hash_bits(&[1, 2, 4]));
}
