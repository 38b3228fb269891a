use std::collections::hash_map::DefaultHasher;
use std::hash::{Hash, Hasher};

use ark_bn254::Fr as ArkFr;
use ark_std::UniformRand;

use ec_gpu_gen::field::Fr;
use ec_gpu_gen::gpu_buffer::{
    hash_slice, BufferIds, BufferMetadata, GpuBufferCache, GpuBufferId,
};

fn fr(x: ArkFr) -> Fr {
    Fr::from_mont_limbs(x.0 .0).unwrap()
}

#[test]
fn test_buffer_id_uniqueness() {
    let mut ids = BufferIds::new();
    let id1 = GpuBufferId::new(&mut ids);
    let id2 = GpuBufferId::new(&mut ids);
    let id3 = GpuBufferId::new(&mut ids);

    assert_ne!(id1, id2);
    assert_ne!(id2, id3);
    assert_ne!(id1, id3);
}

#[test]
fn test_buffer_cache() {
    let mut rng = ark_std::test_rng();
    let mut ids = BufferIds::new();
    let mut cache = GpuBufferCache::new();

    let poly1: Vec<Fr> = (0..16).map(|_| fr(ArkFr::rand(&mut rng))).collect();
    let poly2: Vec<Fr> = (0..16).map(|_| fr(ArkFr::rand(&mut rng))).collect();

    assert!(!cache.is_cached(&poly1, &mut ids));
    assert!(!cache.is_cached(&poly2, &mut ids));

    let meta1 = cache.register(&poly1, &mut ids);
    assert!(cache.is_cached(&poly1, &mut ids));
    assert!(!cache.is_cached(&poly2, &mut ids));

    let meta2 = cache.register(&poly2, &mut ids);
    assert!(cache.is_cached(&poly1, &mut ids));
    assert!(cache.is_cached(&poly2, &mut ids));

    assert_ne!(meta1.id, meta2.id);
    assert_eq!(cache.len(), 2);

    cache.clear();
    assert!(cache.is_empty());
}

#[test]
fn buffer_ids_wrap_around() {
    let mut ids = BufferIds::starting_at(u64::MAX);
    let last = GpuBufferId::new(&mut ids);
    assert_eq!(ids.next(), 0);
    let first = GpuBufferId::new(&mut ids);
    assert_ne!(first, last);
    assert_eq!(ids.next(), 1);
    assert_eq!(first, GpuBufferId::new(&mut BufferIds::new()));
}

#[test]
fn metadata_describes_the_slice() {
    let mut ids = BufferIds::new();
    let poly: Vec<Fr> = (0..5u64).map(|i| fr(ArkFr::from(i))).collect();
    let meta = BufferMetadata::from_slice(&poly, &mut ids);
    assert_eq!(meta.len, 5);
    assert_eq!(meta.hash, hash_slice(&poly));
    let again = BufferMetadata::from_slice(&poly, &mut ids);
    assert_eq!(again.hash, meta.hash);
    assert_ne!(again.id, meta.id);
}

/// The hash is that of the length and of the decimal digits of a sample of the elements.
#[test]
fn hash_is_over_length_and_sampled_digits() {
    for n in [0usize, 1, 7, 8, 16, 33] {
        let poly: Vec<ArkFr> = (0..n as u64).map(|i| ArkFr::from(1_000_000_007u64 * i)).collect();
        let mut hasher = DefaultHasher::new();
        n.hash(&mut hasher);
        for x in poly.iter().step_by(n.max(1) / 8 + 1) {
            x.to_string().hash(&mut hasher);
        }
        let converted: Vec<Fr> = poly.iter().map(|x| fr(*x)).collect();
        assert_eq!(hash_slice(&converted), hasher.finish());
    }
}

#[test]
fn registering_twice_keeps_one_entry() {
    let mut ids = BufferIds::new();
    let mut cache = GpuBufferCache::default();
    assert!(cache.is_empty());
    let poly: Vec<Fr> = (0..9u64).map(|i| fr(ArkFr::from(i * i))).collect();
    let first = cache.register(&poly, &mut ids);
    let second = cache.register(&poly, &mut ids);
    assert_eq!(cache.len(), 1);
    assert!(!cache.is_empty());
    assert_ne!(first.id, second.id);
    // Elements that are not sampled do not count.
    let mut other = poly.clone();
    other[1] = fr(ArkFr::from(999u64));
    assert!(cache.is_cached(&other, &mut ids));
    other[0] = fr(ArkFr::from(999u64));
    assert!(!cache.is_cached(&other, &mut ids));
}

/// Asking makes metadata too, which takes an identifier each time.
#[test]
fn asking_takes_an_identifier() {
    let mut ids = BufferIds::new();
    let mut cache = GpuBufferCache::new();
    let poly: Vec<Fr> = (0..4u64).map(|i| fr(ArkFr::from(i))).collect();
    assert!(!cache.is_cached(&poly, &mut ids));
    assert_eq!(ids.next(), 1);
    let meta = cache.register(&poly, &mut ids);
    assert_eq!(meta.id, GpuBufferId::new(&mut BufferIds::starting_at(1)));
    assert!(cache.is_cached(&poly, &mut ids));
    assert_eq!(ids.next(), 3);
    let mut last = BufferIds::starting_at(u64::MAX);
    assert!(cache.is_cached(&poly, &mut last));
    assert_eq!(last.next(), 0);
}
