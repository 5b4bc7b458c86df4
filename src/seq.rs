//! Reverse complement of nucleotide sequences.

use vstd::prelude::*;

verus! {

/// Complement of a nucleotide byte under the IUPAC alphabet; bytes that are
/// not nucleotide codes map to `N`.
pub open spec fn complement(b: u8) -> u8 {
    if b == 65 {
        84  // A -> T
    } else if b == 67 {
        71  // C -> G
    } else if b == 71 {
        67  // G -> C
    } else if b == 84 {
        65  // T -> A
    } else if b == 82 {
        89  // R -> Y
    } else if b == 89 {
        82  // Y -> R
    } else if b == 83 {
        83  // S -> S
    } else if b == 87 {
        87  // W -> W
    } else if b == 75 {
        77  // K -> M
    } else if b == 77 {
        75  // M -> K
    } else if b == 66 {
        86  // B -> V
    } else if b == 68 {
        72  // D -> H
    } else if b == 72 {
        68  // H -> D
    } else if b == 86 {
        66  // V -> B
    } else {
        78  // N and unknown bytes -> N
    }
}

/// The reverse complement of a sequence.
pub open spec fn reverse_complement_spec(s: Seq<u8>) -> Seq<u8> {
    Seq::new(s.len(), |i: int| complement(s[s.len() - 1 - i]))
}

fn complement_byte(b: u8) -> (r: u8)
    ensures
        r == complement(b),
{
    match b {
        65 => 84,
        67 => 71,
        71 => 67,
        84 => 65,
        82 => 89,
        89 => 82,
        83 => 83,
        87 => 87,
        75 => 77,
        77 => 75,
        66 => 86,
        68 => 72,
        72 => 68,
        86 => 66,
        _ => 78,
    }
}

/// Returns the reverse complement of a DNA sequence.
///
/// Handles all IUPAC ambiguity codes; unrecognized bytes map to `N`.
pub fn reverse_complement(seq: &[u8]) -> (rc: Vec<u8>)
    ensures
        rc@ == reverse_complement_spec(seq@),
{
    let mut rc: Vec<u8> = Vec::with_capacity(seq.len());
    let mut i: usize = seq.len();
    while i > 0
        invariant
            i <= seq.len(),
            rc@.len() == seq.len() - i,
            forall|j: int|
                0 <= j < rc@.len() ==> #[trigger] rc@[j] == complement(seq@[seq.len() - 1 - j]),
        decreases i,
    {
        i -= 1;
        rc.push(complement_byte(seq[i]));
    }
    assert(rc@ =~= reverse_complement_spec(seq@));
    rc
}

} // verus!
