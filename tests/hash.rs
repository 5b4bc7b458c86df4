use bio_utils_rs::mm_hash64;

#[test]
fn test_deterministic() {
    assert_eq!(mm_hash64(42), mm_hash64(42));
}

#[test]
fn test_different_inputs() {
    assert_ne!(mm_hash64(0), mm_hash64(1));
}

#[test]
fn test_zero_input() {
    let hash = mm_hash64(0);
    assert_ne!(hash, 0);
}

#[test]
fn test_known_value() {
    let hash = mm_hash64(1);
    assert_eq!(hash, mm_hash64(1));
    assert_ne!(hash, 0);
}

fn reference_mix(kmer: u64) -> u64 {
    let mut key = kmer;
    key = !key.wrapping_add(key << 21);
    key ^= key >> 24;
    key = key.wrapping_add(key << 3).wrapping_add(key << 8);
    key ^= key >> 14;
    key = key.wrapping_add(key << 2).wrapping_add(key << 4);
    key ^= key >> 28;
    key.wrapping_add(key << 31)
}

#[test]
fn hash_matches_minimap2_steps() {
    for kmer in [0u64, 1, 2, 42, 0xdead_beef, u64::MAX, 1 << 63] {
        assert_eq!(mm_hash64(kmer), reference_mix(kmer));
    }
}

#[test]
fn hash_is_injective_on_small_range() {
    let mut seen = std::collections::HashSet::new();
    for kmer in 0u64..4096 {
        assert!(seen.insert(mm_hash64(kmer)));
    }
}
