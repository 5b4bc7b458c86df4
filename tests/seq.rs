use bio_utils_rs::{
    find_homopolymers, gc_count, homopolymer_compression, homopolymer_compression_soft, mean_len,
    nucleotide_counts, reverse_complement, translate, valid_homopolymer, CodonTable, Frame,
};

#[test]
fn reverse_complement_canonical_bases() {
    assert_eq!(reverse_complement(b"A"), vec![b'T']);
    assert_eq!(reverse_complement(b"ATA"), vec![b'T', b'A', b'T']);
    assert_eq!(reverse_complement(b"AACGTT"), b"AACGTT".to_vec());
    assert_eq!(reverse_complement(b"AACG"), b"CGTT".to_vec());
}

#[test]
fn reverse_complement_ambiguity_codes() {
    assert_eq!(reverse_complement(b"N"), vec![b'N']);
    assert_eq!(reverse_complement(b"TNT"), vec![b'A', b'N', b'A']);
    assert_eq!(reverse_complement(b"RYSWKMBDHV"), b"BDHVKMWSRY".to_vec());
}

#[test]
fn reverse_complement_unknown_bytes() {
    assert_eq!(reverse_complement(b"X"), vec![b'N']);
    assert_eq!(reverse_complement(b"AXA"), vec![b'T', b'N', b'T']);
    assert_eq!(reverse_complement(b"acgt"), b"NNNN".to_vec());
    assert!(reverse_complement(b"").is_empty());
}

#[test]
fn find_homopolymer_cases() {
    let empty: Vec<(usize, usize, u8, usize)> = vec![];
    assert_eq!(find_homopolymers(b"ATCG", 2, false).unwrap(), empty);
    assert_eq!(find_homopolymers(b"AAAA", 4, false).unwrap(), vec![(0, 4, b'A', 4)]);
    assert_eq!(find_homopolymers(b"aaaa", 4, true).unwrap(), vec![(0, 4, b'a', 4)]);
    assert_eq!(find_homopolymers(b"aaaa", 4, false).unwrap(), empty);
    assert_eq!(
        find_homopolymers(b"ATGGGGGCGccccAGT", 4, true).unwrap(),
        vec![(2, 7, b'G', 5), (9, 13, b'c', 4)]
    );
    assert_eq!(find_homopolymers(b"AA", 3, true).unwrap(), empty);
    assert_eq!(
        find_homopolymers(b"TTTACCC", 1, false).unwrap(),
        vec![(0, 3, b'T', 3), (3, 4, b'A', 1), (4, 7, b'C', 3)]
    );
}

#[test]
fn valid_homopolymer_checks_length_and_case() {
    assert!(valid_homopolymer(0, 4, &b'A', 4, false));
    assert!(!valid_homopolymer(0, 3, &b'A', 4, true));
    assert!(!valid_homopolymer(0, 4, &b'a', 4, false));
    assert!(valid_homopolymer(0, 4, &b'a', 4, true));
}

#[test]
fn homopolymer_compression_cases() {
    assert_eq!(homopolymer_compression(b""), b"".to_vec());
    assert_eq!(homopolymer_compression(b"T"), b"T".to_vec());
    assert_eq!(homopolymer_compression(b"AAAA"), b"A".to_vec());
    assert_eq!(homopolymer_compression(b"CCCGTTT"), b"CGT".to_vec());
    assert_eq!(homopolymer_compression(b"AAANNGGT"), b"ANGT".to_vec());
    assert_eq!(homopolymer_compression(b"AAAATTCGCG"), b"ATCGCG".to_vec());
}

#[test]
fn homopolymer_compression_soft_cases() {
    assert_eq!(homopolymer_compression_soft(b"", 10), b"".to_vec());
    assert_eq!(homopolymer_compression_soft(b"ATCG", 1), b"ATCG".to_vec());
    assert_eq!(homopolymer_compression_soft(b"AAAAAAAA", 1), b"A".to_vec());
    assert_eq!(homopolymer_compression_soft(b"CCCCCCCCCCC", 2), b"CC".to_vec());
    assert_eq!(homopolymer_compression_soft(b"GGG", 5), b"GGG".to_vec());
    assert_eq!(homopolymer_compression_soft(b"TTT", 0), b"T".to_vec());
    assert_eq!(homopolymer_compression_soft(b"ATCAAAGTCCCCCCCCGT", 2), b"ATCAAGTCCGT".to_vec());
    assert_eq!(homopolymer_compression_soft(b"AAGGCCTT", 1), b"AGCT".to_vec());
    assert_eq!(homopolymer_compression_soft(b"AGCTTTT", 2), b"AGCTT".to_vec());
    assert_eq!(homopolymer_compression_soft(b"AAAATTCGCG", 2), b"AATTCGCG".to_vec());
}

#[test]
fn homopolymer_compression_soft_leading_underscore() {
    assert_eq!(homopolymer_compression_soft(b"__A", 0), b"A".to_vec());
    assert_eq!(homopolymer_compression_soft(b"___A", 2), b"__A".to_vec());
}

#[test]
fn mean_len_cases() {
    assert_eq!(mean_len(&[]), 0);
    assert_eq!(mean_len(&[10, 20, 30]), 20);
    assert_eq!(mean_len(&[1, 2]), 1);
}

#[test]
fn nucleotide_counts_cases() {
    assert_eq!(nucleotide_counts(b""), ([0, 0, 0, 0], 0, 0));
    assert_eq!(nucleotide_counts(b"aaAA"), ([2, 0, 0, 0], 2, 0));
    assert_eq!(nucleotide_counts(b"aaAAttTTccCCggGGNN"), ([2, 2, 2, 2], 8, 2));
    assert_eq!(nucleotide_counts(b"AACGttNN"), ([2, 1, 1, 0], 2, 2));
}

#[test]
fn gc_count_cases() {
    assert_eq!(gc_count(b""), 0);
    assert_eq!(gc_count(b"A"), 0);
    assert_eq!(gc_count(b"G"), 1);
    assert_eq!(gc_count(b"ATCG"), 2);
    assert_eq!(gc_count(b"AATTC"), 1);
    assert_eq!(gc_count(b"ggccGCNa"), 6);
}

#[test]
fn translate_first_frame() {
    assert_eq!(translate(CodonTable::Standard, &Frame::First, b""), b"".to_vec());
    assert_eq!(translate(CodonTable::Standard, &Frame::First, b"A"), b"".to_vec());
    assert_eq!(translate(CodonTable::Standard, &Frame::First, b"GT"), b"".to_vec());
    assert_eq!(translate(CodonTable::Standard, &Frame::First, b"ATG"), b"M".to_vec());
    assert_eq!(translate(CodonTable::Standard, &Frame::First, b"ATGTGAAAA"), b"M*".to_vec());
}

#[test]
fn translate_second_and_third_frame() {
    assert_eq!(translate(CodonTable::Standard, &Frame::Second, b"A"), b"".to_vec());
    assert_eq!(translate(CodonTable::Standard, &Frame::Second, b"ATG"), b"".to_vec());
    assert_eq!(translate(CodonTable::Standard, &Frame::Second, b"AATG"), b"M".to_vec());
    assert_eq!(translate(CodonTable::Standard, &Frame::Second, b"TTGA"), b"*".to_vec());
    assert_eq!(translate(CodonTable::Standard, &Frame::Third, b"GGATGTTT"), b"MF".to_vec());
}

#[test]
fn codon_table_and_frames() {
    let table = CodonTable::Standard.table();
    assert_eq!(&table[..], &b"FFLLSSSSYY**CC*WLLLLPPPPHHQQRRRRIIIMTTTTNNKKSSRRVVVVAAAADDEEGGGG"[..]);
    assert_eq!(Frame::First.start_pos(), 0);
    assert_eq!(Frame::Second.start_pos(), 1);
    assert_eq!(Frame::Third.start_pos(), 2);
}
