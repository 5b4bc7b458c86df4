use bio_utils_rs::{
    build_reverse_index, frac_min_hash, ClosedSyncmerSketch, FracMinHashSketch, MinimizerSketch,
    OpenSyncmerSketch, Sketcher,
};
use std::collections::{HashMap, HashSet};

fn members(index: &bio_utils_rs::ReverseIndex, h: u64, n: usize) -> Vec<usize> {
    let bits = index.get(&h).expect("hash is indexed");
    assert_eq!(bits.len(), n);
    bits.ones().collect()
}

#[test]
fn index_membership_end_to_end() {
    let seqs: Vec<&[u8]> = vec![b"AAAAAAAA", b"AAAAAAAC", b"TTTTTTTT"];
    let sketcher = FracMinHashSketch { kmer_size: 3, downsample_factor: 1 };
    let index = build_reverse_index(&seqs, &sketcher);
    let s0 = frac_min_hash(3, 1, seqs[0]).unwrap();
    let s1 = frac_min_hash(3, 1, seqs[1]).unwrap();
    let s2 = frac_min_hash(3, 1, seqs[2]).unwrap();
    assert_eq!(index.len(), 2);
    for h in &s0 {
        assert!(s2.contains(h));
        let m = members(&index, *h, 3);
        assert!(m.contains(&0) && m.contains(&2));
    }
    for entry in index.iter() {
        let has_one = entry.value().contains(1);
        assert_eq!(has_one, s1.contains(entry.key()));
    }
}

fn random_seq(state: &mut u64, len: usize) -> Vec<u8> {
    let mut seq = Vec::with_capacity(len);
    for _ in 0..len {
        *state = state.wrapping_mul(6364136223846793005).wrapping_add(1442695040888963407);
        seq.push(b"ACGTN"[((*state >> 33) % 5) as usize]);
    }
    seq
}

#[test]
fn parallel_index_matches_sequential_build() {
    let mut state = 7u64;
    let owned: Vec<Vec<u8>> = (0..10_000).map(|i| random_seq(&mut state, 20 + i % 40)).collect();
    let seqs: Vec<&[u8]> = owned.iter().map(|s| s.as_slice()).collect();
    let sketcher = FracMinHashSketch { kmer_size: 11, downsample_factor: 4 };
    let index = build_reverse_index(&seqs, &sketcher);

    let mut expected: HashMap<u64, Vec<usize>> = HashMap::new();
    for (i, seq) in seqs.iter().enumerate() {
        for h in sketcher.sketch(seq) {
            expected.entry(h).or_default().push(i);
        }
    }
    assert_eq!(index.len(), expected.len());
    for (h, positions) in &expected {
        assert_eq!(&members(&index, *h, seqs.len()), positions);
    }
}

#[test]
fn frac_sketcher_short_sequence_is_empty() {
    let sketcher = FracMinHashSketch { kmer_size: 5, downsample_factor: 1 };
    assert!(sketcher.sketch(b"ACG").is_empty());
    assert_eq!(sketcher.sketch(b"ACGTA"), frac_min_hash(5, 1, b"ACGTA").unwrap());
}

#[test]
fn empty_batch_gives_empty_index() {
    let seqs: Vec<&[u8]> = vec![];
    let sketcher = FracMinHashSketch { kmer_size: 3, downsample_factor: 1 };
    assert_eq!(build_reverse_index(&seqs, &sketcher).len(), 0);
}

#[test]
fn minimizer_sketch_values() {
    let sketcher = MinimizerSketch { kmer_size: 5, window_size: 7 };
    let sketch = sketcher.sketch(b"ACGTGCTCAGAGACTCAGAGGA");
    let expected: HashSet<u64> =
        [0b10_11_01_00_01, 0b11_00_11_00_01, 0b01_00_11_00_11].into_iter().collect();
    assert_eq!(sketch, expected);
}

#[test]
fn syncmer_sketches_are_canonical() {
    let seq = b"ACGTGCTCAGAGACTCAGAGGATTACAGATCCGATCGGGAAATTTCCCAGAGTACAGAT";
    let rc = bio_utils_rs::reverse_complement(seq);
    let closed = ClosedSyncmerSketch { kmer_size: 5, window_size: 7 };
    let open = OpenSyncmerSketch { kmer_size: 5, window_size: 7 };
    let closed_fwd = closed.sketch(seq);
    let open_fwd = open.sketch(seq);
    assert!(!closed_fwd.is_empty());
    assert_eq!(closed_fwd, closed.sketch(&rc));
    assert_eq!(open_fwd, open.sketch(&rc));
    for v in closed_fwd.iter().chain(open_fwd.iter()) {
        assert!(*v < 1u64 << 22);
    }
}

#[test]
fn minimizer_index_over_batch() {
    let seqs: Vec<&[u8]> = vec![b"ACGTGCTCAGAGACTCAGAGGA", b"ACGTGCTCAGAGACTCAGAGGA", b"TTTTTTTTTTTTTTTTTTTT"];
    let sketcher = MinimizerSketch { kmer_size: 5, window_size: 7 };
    let index = build_reverse_index(&seqs, &sketcher);
    for h in sketcher.sketch(seqs[0]) {
        let m = members(&index, h, 3);
        assert!(m.contains(&0) && m.contains(&1));
    }
}

#[test]
fn try_build_rejects_invalid_parameters() {
    let seqs: Vec<&[u8]> = vec![b"ACGTACGT", b"TTTTGGGG"];
    let bad_factor = FracMinHashSketch { kmer_size: 3, downsample_factor: 0 };
    assert!(matches!(
        bio_utils_rs::try_build_reverse_index(&seqs, &bad_factor),
        Err(bio_utils_rs::BioError::InvalidParameterError(_))
    ));
    let zero_window = MinimizerSketch { kmer_size: 5, window_size: 0 };
    assert!(!zero_window.accepts_input(seqs[0]));
    assert!(bio_utils_rs::try_build_reverse_index(&seqs, &zero_window).is_err());
    let even_window = MinimizerSketch { kmer_size: 5, window_size: 6 };
    assert!(!even_window.accepts_input(seqs[0]));
    let even_open = OpenSyncmerSketch { kmer_size: 4, window_size: 6 };
    assert!(!even_open.accepts_input(seqs[0]));
    let long_syncmer = ClosedSyncmerSketch { kmer_size: 21, window_size: 13 };
    assert!(!long_syncmer.accepts_input(seqs[0]));
}

#[test]
fn try_build_matches_build() {
    let seqs: Vec<&[u8]> = vec![b"AAAAAAAA", b"AAAAAAAC", b"TTTTTTTT"];
    let sketcher = FracMinHashSketch { kmer_size: 3, downsample_factor: 1 };
    let checked = bio_utils_rs::try_build_reverse_index(&seqs, &sketcher).unwrap();
    let direct = build_reverse_index(&seqs, &sketcher);
    assert_eq!(checked.len(), direct.len());
    for entry in direct.iter() {
        assert_eq!(&*checked.get(entry.key()).unwrap(), entry.value());
    }
}

#[test]
fn windowed_sketches_of_short_sequences() {
    let minimizers = MinimizerSketch { kmer_size: 5, window_size: 7 };
    let closed = ClosedSyncmerSketch { kmer_size: 5, window_size: 7 };
    let open = OpenSyncmerSketch { kmer_size: 5, window_size: 7 };
    for seq in [&b""[..], &b"A"[..], &b"ACG"[..], &b"ACGTACGTAC"[..], &b"NNNNNNNNNNNNNNNN"[..]] {
        assert!(minimizers.accepts_input(seq));
        let _ = minimizers.sketch(seq);
        let _ = closed.sketch(seq);
        let _ = open.sketch(seq);
    }
    assert!(minimizers.sketch(b"ACG").is_empty());
}
