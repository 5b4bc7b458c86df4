//! Interchangeable sketch strategies: each maps a sequence to a set of
//! 64-bit values.

use vstd::prelude::*;
use std::collections::HashSet;
use packed_seq::{PackedSeqVec, SeqVec};
use simd_minimizers::{
    canonical_closed_syncmers, canonical_minimizers, canonical_open_syncmers, seq_hash,
};
use crate::kmerize::{frac_min_hash, frac_sketch, sketch_upto, MAX_DOWNSAMPLE, MAX_KMER_SIZE};

verus! {

broadcast use vstd::std_specs::hash::group_hash_axioms;

/// A strategy that computes a set of 64-bit values for a byte sequence.
pub trait Sketcher: Send + Sync {
    /// Whether the strategy's parameters and `seq` are in its domain.
    spec fn accepts(&self, seq: Seq<u8>) -> bool;

    /// The values the strategy selects for `seq`.
    spec fn sketch_view(&self, seq: Seq<u8>) -> Set<u64>;

    /// Whether the strategy accepts `seq` with its parameters.
    fn accepts_input(&self, seq: &[u8]) -> (r: bool)
        ensures
            r == self.accepts(seq@),
    ;

    fn sketch(&self, seq: &[u8]) -> (r: HashSet<u64>)
        requires
            self.accepts(seq@),
        ensures
            r@ == self.sketch_view(seq@),
    ;
}

/// Exec check of `windowed_params_ok` for values of `kmer_size` bases
/// (minimizers) or of the whole window (syncmers).
fn windowed_params_check(kmer_size: usize, window_size: usize, whole_window: bool, seq_len: usize) -> (r: bool)
    ensures
        r == windowed_params_ok(
            kmer_size as nat,
            window_size as nat,
            if whole_window {
                syncmer_len(kmer_size as nat, window_size as nat)
            } else {
                kmer_size as nat
            },
            seq_len as nat,
        ),
{
    if kmer_size < 1 || kmer_size > MAX_KMER_SIZE || window_size < 1 || window_size > MAX_WINDOW_SIZE {
        return false;
    }
    let window_len = kmer_size + window_size - 1;
    let value_len = if whole_window {
        window_len
    } else {
        kmer_size
    };
    window_len % 2 == 1 && value_len <= MAX_KMER_SIZE && seq_len <= MAX_WINDOWED_SEQ_LEN
}

/// Canonical minimizer values that simd_minimizers selects for `seq`.
pub uninterp spec fn canonical_minimizer_values(seq: Seq<u8>, kmer_size: nat, window_size: nat) -> Seq<u64>;

/// Canonical closed syncmer values that simd_minimizers selects for `seq`.
pub uninterp spec fn canonical_closed_syncmer_values(seq: Seq<u8>, kmer_size: nat, window_size: nat) -> Seq<u64>;

/// Canonical open syncmer values that simd_minimizers selects for `seq`.
pub uninterp spec fn canonical_open_syncmer_values(seq: Seq<u8>, kmer_size: nat, window_size: nat) -> Seq<u64>;

/// Largest window accepted by the sliding-minimum routines.
pub const MAX_WINDOW_SIZE: usize = 32767;

/// Longest sequence whose positions the windowed routines index in 32 bits.
pub const MAX_WINDOWED_SEQ_LEN: usize = 0x1fff_ffff;

/// Parameters under which the windowed selection routines run: `k` and `w`
/// positive, `w` below 2^15, an odd window length `k + w - 1`, selected
/// values of `value_len` bases that fit in 64 bits, and a sequence short
/// enough for 32-bit positions.
pub open spec fn windowed_params_ok(kmer_size: nat, window_size: nat, value_len: nat, seq_len: nat) -> bool {
    &&& 1 <= kmer_size
    &&& 1 <= window_size <= MAX_WINDOW_SIZE
    &&& (kmer_size + window_size - 1) % 2 == 1
    &&& value_len <= MAX_KMER_SIZE
    &&& seq_len <= MAX_WINDOWED_SEQ_LEN
}

/// Length of a syncmer: `k + w - 1` bases.
pub open spec fn syncmer_len(kmer_size: nat, window_size: nat) -> nat {
    (kmer_size + window_size - 1) as nat
}

/// Relies on simd_minimizers::canonical_minimizers with the default ntHash
/// hasher and super-k-mer output, run on the 2-bit packing of `seq`
/// (packed_seq::PackedSeqVec::from_ascii): the canonical k-mer values at the
/// minimizer positions, a function of the arguments alone. `capacity` only
/// sizes the position buffers.
#[verifier::external_body]
fn minimizer_values(seq: &[u8], kmer_size: usize, window_size: usize, capacity: usize) -> (r: Vec<u64>)
    requires
        windowed_params_ok(kmer_size as nat, window_size as nat, kmer_size as nat, seq@.len()),
    ensures
        r@ == canonical_minimizer_values(seq@, kmer_size as nat, window_size as nat),
{
    let packed_seq = PackedSeqVec::from_ascii(seq);
    let hasher = <seq_hash::NtHasher>::new(kmer_size);
    let mut minimizer_positions = Vec::with_capacity(capacity);
    let mut super_kmers = Vec::with_capacity(capacity);
    canonical_minimizers(kmer_size, window_size).hasher(&hasher).super_kmers(&mut super_kmers).run(
        packed_seq.as_slice(),
        &mut minimizer_positions,
    ).values_u64().collect()
}

/// Relies on simd_minimizers::canonical_closed_syncmers run on the 2-bit
/// packing of `seq`: the canonical values of the closed syncmers of length
/// `kmer_size + window_size - 1`, a function of the arguments alone.
#[verifier::external_body]
fn closed_syncmer_values(seq: &[u8], kmer_size: usize, window_size: usize) -> (r: Vec<u64>)
    requires
        windowed_params_ok(
            kmer_size as nat,
            window_size as nat,
            syncmer_len(kmer_size as nat, window_size as nat),
            seq@.len(),
        ),
    ensures
        r@ == canonical_closed_syncmer_values(seq@, kmer_size as nat, window_size as nat),
{
    let packed_seq = PackedSeqVec::from_ascii(seq);
    let mut syncmer_positions = Vec::new();
    canonical_closed_syncmers(kmer_size, window_size).run(
        packed_seq.as_slice(),
        &mut syncmer_positions,
    ).values_u64().collect()
}

/// Relies on simd_minimizers::canonical_open_syncmers run on the 2-bit
/// packing of `seq`: the canonical values of the open syncmers of length
/// `kmer_size + window_size - 1`, a function of the arguments alone. The
/// routine asserts an odd `window_size`.
#[verifier::external_body]
fn open_syncmer_values(seq: &[u8], kmer_size: usize, window_size: usize) -> (r: Vec<u64>)
    requires
        windowed_params_ok(
            kmer_size as nat,
            window_size as nat,
            syncmer_len(kmer_size as nat, window_size as nat),
            seq@.len(),
        ),
        window_size % 2 == 1,
    ensures
        r@ == canonical_open_syncmer_values(seq@, kmer_size as nat, window_size as nat),
{
    let packed_seq = PackedSeqVec::from_ascii(seq);
    let mut syncmer_positions = Vec::new();
    canonical_open_syncmers(kmer_size, window_size).run(
        packed_seq.as_slice(),
        &mut syncmer_positions,
    ).values_u64().collect()
}

/// Collects values into a set, dropping duplicates.
pub fn collect_values(values: &Vec<u64>) -> (r: HashSet<u64>)
    ensures
        r@ == values@.to_set(),
{
    let mut set: HashSet<u64> = HashSet::new();
    let mut i: usize = 0;
    while i < values.len()
        invariant
            i <= values.len(),
            set@ == values@.take(i as int).to_set(),
        decreases values.len() - i,
    {
        proof {
            assert(values@.take(i + 1) =~= values@.take(i as int).push(values@[i as int]));
            values@.take(i as int).lemma_push_to_set_commute(values@[i as int]);
        }
        set.insert(values[i]);
        i += 1;
    }
    proof {
        assert(values@.take(values.len() as int) =~= values@);
    }
    set
}

/// FracMinHash strategy: every canonical k-mer whose packed value is at most
/// `u64::MAX / downsample_factor`, hashed.
pub struct FracMinHashSketch {
    pub kmer_size: usize,
    pub downsample_factor: u64,
}

/// Canonical minimizers: one k-mer per window of `window_size` k-mers,
/// ranked by ntHash. Among equal hashes the leftmost k-mer wins on the
/// window's preferred strand (the one with more `T`/`G`), which needs an odd
/// window length `k + w - 1`.
pub struct MinimizerSketch {
    pub kmer_size: usize,
    pub window_size: usize,
}

/// Canonical closed syncmers: windows whose minimal k-mer is at either end.
pub struct ClosedSyncmerSketch {
    pub kmer_size: usize,
    pub window_size: usize,
}

/// Canonical open syncmers: windows whose minimal k-mer is in the middle.
pub struct OpenSyncmerSketch {
    pub kmer_size: usize,
    pub window_size: usize,
}

proof fn lemma_sketch_upto_short(s: Seq<u8>, k: nat, d: nat, n: nat)
    requires
        s.len() < k,
    ensures
        sketch_upto(s, k, d, n) == Set::<u64>::empty(),
    decreases n,
{
    if n > 0 {
        lemma_sketch_upto_short(s, k, d, (n - 1) as nat);
    }
}

impl Sketcher for FracMinHashSketch {
    open spec fn accepts(&self, seq: Seq<u8>) -> bool {
        &&& 1 <= self.kmer_size <= MAX_KMER_SIZE
        &&& 1 <= self.downsample_factor <= MAX_DOWNSAMPLE
    }

    open spec fn sketch_view(&self, seq: Seq<u8>) -> Set<u64> {
        frac_sketch(self.kmer_size as nat, self.downsample_factor as nat, seq)
    }

    fn accepts_input(&self, seq: &[u8]) -> (r: bool) {
        1 <= self.kmer_size && self.kmer_size <= MAX_KMER_SIZE && 1 <= self.downsample_factor
            && self.downsample_factor <= MAX_DOWNSAMPLE
    }

    /// A sequence shorter than the k-mer size has no k-mers and an empty
    /// sketch.
    fn sketch(&self, seq: &[u8]) -> (r: HashSet<u64>) {
        if self.kmer_size > seq.len() {
            proof {
                lemma_sketch_upto_short(
                    seq@,
                    self.kmer_size as nat,
                    self.downsample_factor as nat,
                    seq@.len(),
                );
            }
            return HashSet::new();
        }
        match frac_min_hash(self.kmer_size, self.downsample_factor, seq) {
            Ok(hashes) => hashes,
            Err(_) => HashSet::new(),
        }
    }
}

impl Sketcher for MinimizerSketch {
    open spec fn accepts(&self, seq: Seq<u8>) -> bool {
        windowed_params_ok(
            self.kmer_size as nat,
            self.window_size as nat,
            self.kmer_size as nat,
            seq.len(),
        )
    }

    open spec fn sketch_view(&self, seq: Seq<u8>) -> Set<u64> {
        canonical_minimizer_values(seq, self.kmer_size as nat, self.window_size as nat).to_set()
    }

    fn accepts_input(&self, seq: &[u8]) -> (r: bool) {
        windowed_params_check(self.kmer_size, self.window_size, false, seq.len())
    }

    fn sketch(&self, seq: &[u8]) -> (r: HashSet<u64>) {
        // Expected number of minimizers at density 2 / (w + 1).
        let capacity = seq.len() * 2 / (self.window_size + 1);
        let values = minimizer_values(seq, self.kmer_size, self.window_size, capacity);
        collect_values(&values)
    }
}

impl Sketcher for ClosedSyncmerSketch {
    open spec fn accepts(&self, seq: Seq<u8>) -> bool {
        windowed_params_ok(
            self.kmer_size as nat,
            self.window_size as nat,
            syncmer_len(self.kmer_size as nat, self.window_size as nat),
            seq.len(),
        )
    }

    open spec fn sketch_view(&self, seq: Seq<u8>) -> Set<u64> {
        canonical_closed_syncmer_values(seq, self.kmer_size as nat, self.window_size as nat).to_set()
    }

    fn accepts_input(&self, seq: &[u8]) -> (r: bool) {
        windowed_params_check(self.kmer_size, self.window_size, true, seq.len())
    }

    fn sketch(&self, seq: &[u8]) -> (r: HashSet<u64>) {
        let values = closed_syncmer_values(seq, self.kmer_size, self.window_size);
        collect_values(&values)
    }
}

impl Sketcher for OpenSyncmerSketch {
    open spec fn accepts(&self, seq: Seq<u8>) -> bool {
        &&& windowed_params_ok(
            self.kmer_size as nat,
            self.window_size as nat,
            syncmer_len(self.kmer_size as nat, self.window_size as nat),
            seq.len(),
        )
        &&& self.window_size % 2 == 1
    }

    open spec fn sketch_view(&self, seq: Seq<u8>) -> Set<u64> {
        canonical_open_syncmer_values(seq, self.kmer_size as nat, self.window_size as nat).to_set()
    }

    fn accepts_input(&self, seq: &[u8]) -> (r: bool) {
        windowed_params_check(self.kmer_size, self.window_size, true, seq.len())
            && self.window_size % 2 == 1
    }

    fn sketch(&self, seq: &[u8]) -> (r: HashSet<u64>) {
        let values = open_syncmer_values(seq, self.kmer_size, self.window_size);
        collect_values(&values)
    }
}

} // verus!
