use bio_utils_rs::{search_exact, search_fuzzy};

#[test]
fn test_search_exact_found() {
    let hits = search_exact(b"ACGTACGTACGT", b"ACGT");
    assert_eq!(hits, vec![0, 4, 8]);
}

#[test]
fn test_search_exact_not_found() {
    let hits = search_exact(b"AAAA", b"CG");
    assert!(hits.is_empty());
}

#[test]
fn test_search_exact_single() {
    let hits = search_exact(b"AACGTAA", b"CGT");
    assert_eq!(hits, vec![2]);
}

#[test]
fn search_exact_is_non_overlapping() {
    assert_eq!(search_exact(b"AAAAA", b"AA"), vec![0, 2]);
}

#[test]
fn search_exact_empty_needle_matches_everywhere() {
    assert_eq!(search_exact(b"ACG", b""), vec![0, 1, 2, 3]);
}

#[test]
fn test_search_fuzzy_exact_match() {
    let hits = search_fuzzy(b"AACGTAA", b"CGT", 0);
    assert_eq!(hits.len(), 1);
    assert_eq!(hits[0].1, 0);
}

#[test]
fn test_search_fuzzy_with_mismatches() {
    let hits = search_fuzzy(b"AACCTAA", b"CGT", 2);
    assert!(!hits.is_empty());
    for (_end, dist) in &hits {
        assert!(*dist <= 2);
    }
}

#[test]
fn test_search_fuzzy_no_match() {
    let hits = search_fuzzy(b"AAAAAAA", b"CGT", 0);
    assert!(hits.is_empty());
}

#[test]
fn search_fuzzy_reports_inclusive_end() {
    let hits = search_fuzzy(b"AACGTAA", b"CGT", 0);
    assert_eq!(hits, vec![(4, 0)]);
}

#[test]
fn search_fuzzy_expands_ambiguity_codes() {
    let hits = search_fuzzy(b"AACGTAA", b"CNT", 0);
    assert_eq!(hits, vec![(4, 0)]);
}
