use bio_utils_rs::{frac_min_hash, mm_hash64, nt_code, reverse_complement, BioError};
use std::collections::HashSet;

fn sketch_len(seq: &[u8], kmer_size: usize) -> usize {
    frac_min_hash(kmer_size, 1, seq).expect("valid parameters").len()
}

#[test]
fn kmerize_counts_distinct_canonical_kmers() {
    assert_eq!(sketch_len(b"AAAAAAAA", 3), 1);
    assert_eq!(sketch_len(b"AAAAAAAC", 3), 2);
    assert_eq!(sketch_len(b"ATCGATCGATCG", 4), 3);
    assert_eq!(sketch_len(b"ATCNATCNATCN", 4), 0);
}

#[test]
fn kmerize_reverse_strand_gives_same_sketch() {
    let a = frac_min_hash(3, 1, b"AAAAAAAA").unwrap();
    let b = frac_min_hash(3, 1, b"TTTTTTTT").unwrap();
    assert_eq!(a, b);
    let c = frac_min_hash(3, 1, b"AAAAAAAAAT").unwrap();
    let d = frac_min_hash(3, 1, b"ATTTTTTTTT").unwrap();
    assert_eq!(c, d);
}

#[test]
fn strand_symmetry_on_mixed_sequence() {
    let seq = b"ACGTTGCANNACGGATTACAGGCTTACGNACGTACGATCGATCGGGCTA";
    let rc = reverse_complement(seq);
    for k in [1usize, 3, 5, 8, 13, 21, 32] {
        if k > seq.len() {
            continue;
        }
        for d in [1u64, 2, 7, 200] {
            assert_eq!(frac_min_hash(k, d, seq).unwrap(), frac_min_hash(k, d, &rc).unwrap());
        }
    }
}

#[test]
fn repeated_calls_give_identical_sketches() {
    let seq = b"GATTACAGATTACACCGGTTAACCGGTT";
    let first = frac_min_hash(5, 3, seq).unwrap();
    for _ in 0..5 {
        assert_eq!(frac_min_hash(5, 3, seq).unwrap(), first);
    }
}

#[test]
fn downsample_factor_bounds_are_rejected() {
    let seq = b"ACGTACGTACGT";
    assert!(matches!(frac_min_hash(4, 0, seq), Err(BioError::InvalidParameterError(_))));
    assert!(matches!(frac_min_hash(4, 201, seq), Err(BioError::InvalidParameterError(_))));
    assert!(frac_min_hash(4, 1, seq).is_ok());
    assert!(frac_min_hash(4, 200, seq).is_ok());
}

#[test]
fn kmer_size_longer_than_sequence_is_rejected() {
    assert!(matches!(frac_min_hash(13, 1, b"ACGTACGTACGT"), Err(BioError::InvalidParameterError(_))));
    assert!(matches!(frac_min_hash(1, 1, b""), Err(BioError::InvalidParameterError(_))));
    assert!(frac_min_hash(12, 1, b"ACGTACGTACGT").is_ok());
}

#[test]
fn kmer_size_outside_range_is_rejected() {
    let long = vec![b'A'; 40];
    assert!(matches!(frac_min_hash(0, 1, &long), Err(BioError::InvalidParameterError(_))));
    assert!(matches!(frac_min_hash(33, 1, &long), Err(BioError::InvalidParameterError(_))));
    assert_eq!(frac_min_hash(32, 1, &long).unwrap().len(), 1);
}

#[test]
fn ambiguous_bases_reset_the_window() {
    assert!(frac_min_hash(4, 1, b"ATCNATCNATCN").unwrap().is_empty());
    assert_eq!(frac_min_hash(4, 1, b"ATCGATCGATCG").unwrap().len(), 3);
}

#[test]
fn increasing_downsampling_never_grows_the_sketch() {
    let mut seq = Vec::new();
    let mut x: u64 = 12345;
    for _ in 0..2000 {
        x = x.wrapping_mul(6364136223846793005).wrapping_add(1442695040888963407);
        seq.push(b"ACGT"[(x >> 62) as usize]);
    }
    let mut previous: Option<HashSet<u64>> = None;
    for d in 1u64..=200 {
        let current = frac_min_hash(21, d, &seq).unwrap();
        if let Some(prev) = &previous {
            assert!(current.is_subset(prev));
            assert!(current.len() <= prev.len());
        }
        previous = Some(current);
    }
}

#[test]
fn single_kmer_hash_value() {
    // ACG packs to 0b00_01_10 = 6; its reverse complement CGT packs to
    // 0b01_10_11 = 27, so the canonical value is 6.
    let sketch = frac_min_hash(3, 1, b"ACG").unwrap();
    let expected: HashSet<u64> = [mm_hash64(6)].into_iter().collect();
    assert_eq!(sketch, expected);
}

#[test]
fn lowercase_and_u_are_bases() {
    assert_eq!(frac_min_hash(3, 1, b"acg").unwrap(), frac_min_hash(3, 1, b"ACG").unwrap());
    assert_eq!(frac_min_hash(3, 1, b"AUG").unwrap(), frac_min_hash(3, 1, b"ATG").unwrap());
}

#[test]
fn nt_code_table() {
    for (b, c) in [(b'A', 0u8), (b'a', 0), (b'C', 1), (b'c', 1), (b'G', 2), (b'g', 2), (b'T', 3), (b't', 3), (b'U', 3), (b'u', 3), (b'N', 4), (b'Y', 4), (b'R', 4), (0, 4)] {
        assert_eq!(nt_code(b), c);
    }
}
