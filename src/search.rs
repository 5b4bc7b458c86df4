//! Exact and approximate pattern search in nucleotide sequences.

use vstd::prelude::*;
use bio::pattern_matching::myers::MyersBuilder;
use memchr::memmem;

verus! {

#[verifier::external_type_specification]
#[verifier::external_body]
pub struct ExMyersBuilder(MyersBuilder);

/// Whether `needle` occurs in `haystack` starting at `i`.
pub open spec fn occurs_at(haystack: Seq<u8>, needle: Seq<u8>, i: nat) -> bool {
    i + needle.len() <= haystack.len() && haystack.subrange(i as int, (i + needle.len()) as int) == needle
}

/// Leftmost-first non-overlapping occurrences of `needle` at or after `pos`:
/// after a match the search resumes past it (one byte on for an empty
/// needle, which matches at every position including the end).
pub open spec fn occurrences_from(haystack: Seq<u8>, needle: Seq<u8>, pos: nat) -> Seq<usize>
    decreases haystack.len() + 1 - pos,
{
    if pos > haystack.len() {
        Seq::empty()
    } else if occurs_at(haystack, needle, pos) {
        let next = pos + if needle.len() == 0 {
            1
        } else {
            needle.len()
        };
        seq![pos as usize] + occurrences_from(haystack, needle, next)
    } else {
        occurrences_from(haystack, needle, pos + 1)
    }
}

/// Relies on memchr::memmem::find_iter: the start of every non-overlapping
/// occurrence, leftmost first, resuming after each match (one byte on for an
/// empty needle).
#[verifier::external_body]
fn memmem_find_all(haystack: &[u8], needle: &[u8]) -> (r: Vec<usize>)
    ensures
        r@ == occurrences_from(haystack@, needle@, 0),
{
    memmem::find_iter(haystack, needle).collect()
}

/// Searches `seq` for all exact occurrences of `pattern`.
///
/// Returns the starting byte offset of each non-overlapping match, in order.
pub fn search_exact(seq: &[u8], pattern: &[u8]) -> (hits: Vec<usize>)
    ensures
        hits@ == occurrences_from(seq@, pattern@, 0),
{
    memmem_find_all(seq, pattern)
}

pub assume_specification[ MyersBuilder::new ]() -> MyersBuilder;

/// Relies on MyersBuilder::ambig: pattern symbol `symbol` also matches each
/// of `equivalents` in the text.
#[verifier::external_body]
fn add_ambiguity(builder: &mut MyersBuilder, symbol: u8, equivalents: &[u8]) {
    builder.ambig(symbol, equivalents);
}

/// Relies on MyersBuilder::build_64, which asserts a pattern of 1 to 64
/// symbols, and on Myers::find_all_lazy on the matcher it builds: it walks
/// the text once and yields `(end, distance)` for text positions, in
/// increasing order, where a match ends with a distance of at most
/// `max_dist`.
#[verifier::external_body]
fn find_matches(builder: &MyersBuilder, pattern: &[u8], seq: &[u8], max_dist: u8) -> (r: Vec<
    (usize, u8),
>)
    requires
        1 <= pattern@.len() <= 64,
    ensures
        forall|i: int| 0 <= i < r@.len() ==> (#[trigger] r@[i]).0 < seq@.len() && r@[i].1 <= max_dist,
        forall|i: int, j: int| 0 <= i < j < r@.len() ==> (#[trigger] r@[i]).0 < (#[trigger] r@[j]).0,
{
    builder.build_64(pattern).find_all_lazy(seq, max_dist).collect()
}

/// A Myers matcher builder with all IUPAC ambiguity codes pre-configured.
pub fn myers_builder() -> MyersBuilder {
    let mut builder = MyersBuilder::new();
    add_ambiguity(&mut builder, 78, "ACGT".as_bytes());  // N
    add_ambiguity(&mut builder, 82, "AG".as_bytes());  // R
    add_ambiguity(&mut builder, 89, "CT".as_bytes());  // Y
    add_ambiguity(&mut builder, 83, "GC".as_bytes());  // S
    add_ambiguity(&mut builder, 87, "AT".as_bytes());  // W
    add_ambiguity(&mut builder, 75, "GT".as_bytes());  // K
    add_ambiguity(&mut builder, 77, "AC".as_bytes());  // M
    add_ambiguity(&mut builder, 66, "CGT".as_bytes());  // B
    add_ambiguity(&mut builder, 68, "AGT".as_bytes());  // D
    add_ambiguity(&mut builder, 72, "ACT".as_bytes());  // H
    add_ambiguity(&mut builder, 86, "ACG".as_bytes());  // V
    builder
}

/// Searches `seq` for approximate matches of `pattern` with the Myers
/// bit-parallel algorithm; IUPAC ambiguity codes in the pattern are expanded.
///
/// Returns `(end_position, edit_distance)` for every position where a match
/// with at most `max_mismatches` edits ends, with `end_position` inclusive,
/// in increasing order of position.
pub fn search_fuzzy(seq: &[u8], pattern: &[u8], max_mismatches: u8) -> (hits: Vec<(usize, u8)>)
    requires
        1 <= pattern@.len() <= 64,
    ensures
        forall|i: int|
            0 <= i < hits@.len() ==> (#[trigger] hits@[i]).0 < seq@.len() && hits@[i].1
                <= max_mismatches,
        forall|i: int, j: int|
            0 <= i < j < hits@.len() ==> (#[trigger] hits@[i]).0 < (#[trigger] hits@[j]).0,
{
    let builder = myers_builder();
    find_matches(&builder, pattern, seq, max_mismatches)
}

} // verus!
