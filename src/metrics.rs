//! Composition metrics of sequences that need no floating point.

use vstd::prelude::*;
use memchr::memchr_iter;

verus! {

/// Number of bytes of `s` that lie in `bytes`.
pub open spec fn count_in(s: Seq<u8>, bytes: Set<u8>) -> nat
    decreases s.len(),
{
    if s.len() == 0 {
        0
    } else {
        count_in(s.drop_last(), bytes) + if bytes.contains(s.last()) {
            1nat
        } else {
            0nat
        }
    }
}

/// Sum of a sequence of lengths.
pub open spec fn total(s: Seq<usize>) -> nat
    decreases s.len(),
{
    if s.len() == 0 {
        0
    } else {
        total(s.drop_last()) + s.last() as nat
    }
}

proof fn lemma_total_prefix(s: Seq<usize>, i: int)
    requires
        0 <= i <= s.len(),
    ensures
        total(s.take(i)) <= total(s),
    decreases s.len() - i,
{
    if i < s.len() {
        lemma_total_prefix(s, i + 1);
        assert(s.take(i + 1).drop_last() =~= s.take(i));
    } else {
        assert(s.take(i) =~= s);
    }
}

proof fn lemma_count_in_bound(s: Seq<u8>, bytes: Set<u8>)
    ensures
        count_in(s, bytes) <= s.len(),
    decreases s.len(),
{
    if s.len() > 0 {
        lemma_count_in_bound(s.drop_last(), bytes);
    }
}

proof fn lemma_count_in_disjoint(s: Seq<u8>, a: Set<u8>, b: Set<u8>)
    requires
        a.disjoint(b),
    ensures
        count_in(s, a) + count_in(s, b) == count_in(s, a.union(b)),
    decreases s.len(),
{
    if s.len() > 0 {
        lemma_count_in_disjoint(s.drop_last(), a, b);
    }
}

proof fn lemma_count_in_push(s: Seq<u8>, b: u8, bytes: Set<u8>)
    ensures
        count_in(s.push(b), bytes) == count_in(s, bytes) + if bytes.contains(b) {
            1nat
        } else {
            0nat
        },
{
    assert(s.push(b).drop_last() =~= s);
}

/// Returns the truncated mean of a slice of lengths, `0` for an empty slice.
pub fn mean_len(lengths: &[usize]) -> (r: usize)
    requires
        total(lengths@) <= usize::MAX,
    ensures
        r == if lengths@.len() == 0 {
            0
        } else {
            total(lengths@) / lengths@.len()
        },
{
    if lengths.len() == 0 {
        return 0;
    }
    let mut sum: usize = 0;
    let mut i: usize = 0;
    while i < lengths.len()
        invariant
            i <= lengths@.len(),
            sum == total(lengths@.take(i as int)),
            total(lengths@) <= usize::MAX,
        decreases lengths.len() - i,
    {
        proof {
            assert(lengths@.take(i + 1).drop_last() =~= lengths@.take(i as int));
            lemma_total_prefix(lengths@, i + 1);
        }
        sum = sum + lengths[i];
        i += 1;
    }
    proof {
        assert(lengths@.take(lengths@.len() as int) =~= lengths@);
    }
    sum / lengths.len()
}

/// Uppercase canonical bases, in the order `A`, `C`, `G`, `T`.
pub open spec fn canonical_byte(i: int) -> u8 {
    if i == 0 {
        65
    } else if i == 1 {
        67
    } else if i == 2 {
        71
    } else {
        84
    }
}

/// Soft-masked (lowercase) canonical bases.
pub open spec fn softmasked_bytes() -> Set<u8> {
    set![97u8, 99u8, 103u8, 116u8]
}

/// Uppercase canonical bases.
pub open spec fn canonical_bytes() -> Set<u8> {
    set![65u8, 67u8, 71u8, 84u8]
}

/// Counts canonical nucleotides in a DNA sequence.
///
/// Returns the counts of `[A, C, G, T]` (uppercase only), the number of
/// soft-masked bases (`a`, `c`, `g`, `t`) and the number of all other bytes.
pub fn nucleotide_counts(seq: &[u8]) -> (r: ([usize; 4], usize, usize))
    ensures
        forall|i: int| 0 <= i < 4 ==> r.0[i] == count_in(seq@, set![canonical_byte(i)]),
        r.1 == count_in(seq@, softmasked_bytes()),
        r.2 == seq@.len() - count_in(seq@, canonical_bytes()) - count_in(seq@, softmasked_bytes()),
{
    let ghost s = seq@;
    let mut a: usize = 0;
    let mut c: usize = 0;
    let mut g: usize = 0;
    let mut t: usize = 0;
    let mut softmasked_count: usize = 0;
    let mut ambiguous_count: usize = 0;
    let mut i: usize = 0;
    proof {
        assert(s.take(0) =~= Seq::<u8>::empty());
    }
    while i < seq.len()
        invariant
            s == seq@,
            i <= s.len(),
            a == count_in(s.take(i as int), set![65u8]),
            c == count_in(s.take(i as int), set![67u8]),
            g == count_in(s.take(i as int), set![71u8]),
            t == count_in(s.take(i as int), set![84u8]),
            softmasked_count == count_in(s.take(i as int), softmasked_bytes()),
            ambiguous_count + count_in(s.take(i as int), canonical_bytes()) + softmasked_count
                == i,
        decreases s.len() - i,
    {
        let nt = seq[i];
        proof {
            let p = s.take(i as int);
            assert(s.take(i + 1) =~= p.push(nt));
            lemma_count_in_push(p, nt, set![65u8]);
            lemma_count_in_push(p, nt, set![67u8]);
            lemma_count_in_push(p, nt, set![71u8]);
            lemma_count_in_push(p, nt, set![84u8]);
            lemma_count_in_push(p, nt, softmasked_bytes());
            lemma_count_in_push(p, nt, canonical_bytes());
            lemma_count_in_bound(p, set![65u8]);
            lemma_count_in_bound(p, set![67u8]);
            lemma_count_in_bound(p, set![71u8]);
            lemma_count_in_bound(p, set![84u8]);
            lemma_count_in_bound(p, softmasked_bytes());
        }
        if nt == 65 {
            a += 1;
        } else if nt == 67 {
            c += 1;
        } else if nt == 71 {
            g += 1;
        } else if nt == 84 {
            t += 1;
        } else if nt == 97 || nt == 99 || nt == 103 || nt == 116 {
            softmasked_count += 1;
        } else {
            ambiguous_count += 1;
        }
        i += 1;
    }
    proof {
        assert(s.take(s.len() as int) =~= s);
    }
    ([a, c, g, t], softmasked_count, ambiguous_count)
}

/// Relies on memchr::memchr_iter: it yields every position of `needle` in
/// `haystack`, so their number is the count of `needle`.
#[verifier::external_body]
fn count_byte(needle: u8, haystack: &[u8]) -> (r: usize)
    ensures
        r == count_in(haystack@, set![needle]),
{
    memchr_iter(needle, haystack).count()
}

/// Number of `G`, `C`, `g` and `c` bytes: the numerator of the GC content.
pub fn gc_count(seq: &[u8]) -> (r: usize)
    ensures
        r == count_in(seq@, set![71u8, 67u8, 103u8, 99u8]),
{
    let ghost s = seq@;
    let upper_g = count_byte(71, seq);
    let upper_c = count_byte(67, seq);
    let lower_g = count_byte(103, seq);
    let lower_c = count_byte(99, seq);
    let seq_len = seq.len();
    proof {
        lemma_count_in_disjoint(s, set![71u8], set![67u8]);
        lemma_count_in_disjoint(s, set![71u8].union(set![67u8]), set![103u8]);
        lemma_count_in_disjoint(s, set![71u8].union(set![67u8]).union(set![103u8]), set![99u8]);
        assert(set![71u8].union(set![67u8]).union(set![103u8]).union(set![99u8]) =~= set![
            71u8,
            67u8,
            103u8,
            99u8,
        ]);
        lemma_count_in_bound(s, set![71u8, 67u8, 103u8, 99u8]);
        lemma_count_in_bound(s, set![71u8].union(set![67u8]));
        lemma_count_in_bound(s, set![71u8].union(set![67u8]).union(set![103u8]));
        assert(s.len() == seq_len);
    }
    upper_g + upper_c + lower_g + lower_c
}

} // verus!
