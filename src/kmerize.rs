//! FracMinHash sketches of canonical k-mers.

use vstd::prelude::*;
use vstd::arithmetic::power2::{pow2, lemma_pow2_pos, lemma2_to64, lemma2_to64_rest, lemma_pow2_strictly_increases};
use vstd::bits::{lemma_u64_shl_is_mul, lemma_u64_shr_is_div, lemma_u64_low_bits_mask_is_mod, lemma_u64_pow2_no_overflow, low_bits_mask};
use std::collections::HashSet;
use crate::encoding::{
    all_bases, base_code, canonical, comp_code, fwd_code, is_base, lemma_pack_bound,
    lemma_pack_drop_first, lemma_pack_push, lemma_pack_rc_bound, lemma_pack_rc_push,
    lemma_pow4_adds, lemma_pow4_le, lemma_pow4_step, lemma_run_len_window, pack, pack_rc, pow4,
    run_len,
};
use crate::errors::BioError;
use crate::hash::{mm_hash64, mm_hash_spec};
use crate::seq::{complement, reverse_complement_spec};

verus! {

broadcast use vstd::std_specs::hash::group_hash_axioms;

/// Largest k-mer size whose packed value fits in 64 bits.
pub const MAX_KMER_SIZE: usize = 32;

/// Largest accepted downsampling factor.
pub const MAX_DOWNSAMPLE: u64 = 200;

/// Parameters under which a FracMinHash sketch is computed rather than
/// rejected.
pub open spec fn frac_params_valid(kmer_size: nat, ds_factor: nat, seq_len: nat) -> bool {
    &&& 1 <= kmer_size <= MAX_KMER_SIZE
    &&& kmer_size <= seq_len
    &&& 1 <= ds_factor <= MAX_DOWNSAMPLE
}

/// The window of `k` bytes that ends just before `end`.
pub open spec fn window(s: Seq<u8>, k: nat, end: nat) -> Seq<u8> {
    s.subrange(end - k, end as int)
}

/// Whether the window ending before `end` is retained by the sketch: it holds
/// only bases and its canonical value passes the downsampling threshold.
pub open spec fn kmer_kept(s: Seq<u8>, k: nat, d: nat, end: nat) -> bool {
    &&& k <= end <= s.len()
    &&& all_bases(window(s, k, end))
    &&& canonical(window(s, k, end)) <= (u64::MAX as nat) / d
}

/// Hash stored for the window ending before `end`.
pub open spec fn kmer_hash(s: Seq<u8>, k: nat, end: nat) -> u64 {
    mm_hash_spec(canonical(window(s, k, end)) as u64)
}

/// Hashes of the retained windows that end at or before `n`.
pub open spec fn sketch_upto(s: Seq<u8>, k: nat, d: nat, n: nat) -> Set<u64>
    decreases n,
{
    if n == 0 {
        Set::empty()
    } else {
        let prev = sketch_upto(s, k, d, (n - 1) as nat);
        if kmer_kept(s, k, d, n) {
            prev.insert(kmer_hash(s, k, n))
        } else {
            prev
        }
    }
}

/// The FracMinHash sketch of `s`: the hashes of all retained canonical
/// k-mers.
pub open spec fn frac_sketch(k: nat, d: nat, s: Seq<u8>) -> Set<u64> {
    sketch_upto(s, k, d, s.len())
}

/// Number of bases the encoder holds once a run of `run` bases is seen.
pub open spec fn held(run: nat, k: nat) -> nat {
    if run < k {
        run
    } else {
        k
    }
}

/// Two-bit code of a byte, 4 for ambiguous bytes.
pub fn nt_code(b: u8) -> (r: u8)
    ensures
        r == base_code(b),
{
    match b {
        // A a
        65 | 97 => 0,
        // C c
        67 | 99 => 1,
        // G g
        71 | 103 => 2,
        // T t U u
        84 | 116 | 85 | 117 => 3,
        _ => 4,
    }
}

proof fn lemma_shift_in_forward(fwd: u64, c: u64, kb: u64)
    requires
        kb <= 62,
        c < 4,
    ensures
        (1u64 << kb) as nat == pow2(kb as nat),
        ((fwd & ((1u64 << kb) - 1) as u64) << 2u64) | c == (fwd as nat % pow2(kb as nat)) * 4 + c,
{
    lemma_u64_pow2_no_overflow(kb as nat);
    lemma_u64_shl_is_mul(1, kb);
    lemma_u64_low_bits_mask_is_mod(fwd, kb as nat);
    assert(((1u64 << kb) - 1) as u64 == low_bits_mask(kb as nat) as u64);
    let x = fwd & ((1u64 << kb) - 1) as u64;
    assert(x as nat == fwd as nat % pow2(kb as nat));
    lemma2_to64();
    lemma2_to64_rest();
    if kb < 62 {
        lemma_pow2_strictly_increases(kb as nat, 62);
    }
    assert(x * 4 <= u64::MAX);
    lemma_u64_shl_is_mul(x, 2);
    assert((x << 2u64) | c == (x << 2u64) + c) by (bit_vector)
        requires
            c < 4,
    ;
}

proof fn lemma_shift_in_reverse(rev: u64, c: u64, kb: u64)
    requires
        kb <= 62,
        c < 4,
        rev < pow2(kb as nat) * 4,
    ensures
        (rev >> 2u64) | (((3 - c) as u64) << kb) == rev as nat / 4 + (3 - c) * pow2(kb as nat),
{
    lemma2_to64();
    lemma2_to64_rest();
    lemma_u64_shr_is_div(rev, 2);
    let a = rev >> 2u64;
    assert(a < pow2(kb as nat));
    lemma_u64_pow2_no_overflow(kb as nat);
    lemma_u64_shl_is_mul(1, kb);
    if kb < 62 {
        lemma_pow2_strictly_increases(kb as nat, 62);
    }
    let b = (3 - c) as u64;
    assert(b * pow2(kb as nat) <= u64::MAX) by (nonlinear_arith)
        requires
            b <= 3,
            pow2(kb as nat) <= 0x4000_0000_0000_0000,
    ;
    lemma_u64_shl_is_mul(b, kb);
    assert(a < (1u64 << kb));
    assert(a | (b << kb) == a + (b << kb)) by (bit_vector)
        requires
            kb <= 62,
            b < 4,
            a < (1u64 << kb),
    ;
}

/// One step of the rolling encoder on a base: the held window grows by the
/// new base, dropping its oldest base once `k` are held.
proof fn lemma_window_step(s: Seq<u8>, k: nat, i: nat, run: nat, fwd: nat, rev: nat)
    requires
        1 <= k <= 32,
        i < s.len(),
        is_base(s[i as int]),
        run <= i,
        fwd == pack(s.subrange(i - held(run, k), i as int)),
        rev == pack_rc(s.subrange(i - held(run, k), i as int)) * pow4((k - held(run, k)) as nat),
    ensures
        ({
            let m = held(run + 1, k);
            let w = s.subrange(i + 1 - m, i + 1 as int);
            &&& (fwd % pow4((k - 1) as nat)) * 4 + fwd_code(s[i as int]) == pack(w)
            &&& rev / 4 + comp_code(s[i as int]) * pow4((k - 1) as nat) == pack_rc(w) * pow4(
                (k - m) as nat,
            )
        }),
{
    let m0 = held(run, k);
    let m = held(run + 1, k);
    let b = s[i as int];
    let w0 = s.subrange(i - m0, i as int);
    let w = s.subrange(i + 1 - m, i + 1 as int);
    lemma_pack_bound(w0);
    lemma_pack_rc_bound(w0);
    if m0 < k {
        assert(m == m0 + 1);
        assert(w =~= w0.push(b));
        lemma_pack_push(w0, b);
        lemma_pack_rc_push(w0, b);
        lemma_pow4_le(m0, (k - 1) as nat);
        assert(fwd % pow4((k - 1) as nat) == fwd) by {
            vstd::arithmetic::div_mod::lemma_small_mod(fwd, pow4((k - 1) as nat));
        }
        let e = (k - m) as nat;
        lemma_pow4_step(e);
        assert((k - m0) as nat == e + 1);
        lemma_pow4_adds(m0, e);
        assert(m0 + e == (k - 1) as nat);
        let r = pack_rc(w0);
        let q = pow4(e);
        assert(rev == r * (4 * q)) by (nonlinear_arith)
            requires
                rev == r * pow4((k - m0) as nat),
                pow4((k - m0) as nat) == 4 * q,
        ;
        assert(rev / 4 == r * q) by (nonlinear_arith)
            requires
                rev == r * (4 * q),
        ;
        assert(rev / 4 + comp_code(b) * pow4((k - 1) as nat) == (r + comp_code(b) * pow4(m0)) * q)
            by (nonlinear_arith)
            requires
                pow4((k - 1) as nat) == pow4(m0) * q,
                rev / 4 == r * q,
        ;
    } else {
        assert(m0 == k && m == k);
        let t = w0.drop_first();
        assert(w =~= t.push(b));
        lemma_pack_drop_first(w0);
        lemma_pack_bound(t);
        lemma_pack_push(t, b);
        lemma_pack_rc_push(t, b);
        let p = pow4((k - 1) as nat);
        let c0 = fwd_code(w0[0]);
        assert(fwd % p == pack(t)) by {
            vstd::arithmetic::div_mod::lemma_fundamental_div_mod_converse(
                fwd as int,
                p as int,
                c0 as int,
                pack(t) as int,
            );
        }
        assert(pow4(0) == 1) by {
            lemma2_to64();
        }
        assert(rev == pack_rc(w0));
        assert(rev / 4 == pack_rc(t)) by {
            assert(pack_rc(w0) == comp_code(w0[0]) + 4 * pack_rc(t));
        }
    }
}

/// Renders the message for a k-mer size outside `1..=32`.
///
/// Relies on std's `format!` to render the number.
#[verifier::external_body]
fn kmer_size_range_message(kmer_size: usize) -> String {
    format!("kmer size {} must be in range 1-32.", kmer_size)
}

/// Renders the message for a k-mer size longer than the sequence.
///
/// Relies on std's `format!` to render the two numbers.
#[verifier::external_body]
fn kmer_size_length_message(kmer_size: usize, seq_len: usize) -> String {
    format!("kmer size {} cannot be longer than sequence len {}.", kmer_size, seq_len)
}

/// Renders the message for a downsampling factor outside `1..=200`.
///
/// Relies on std's `format!` to render the number.
#[verifier::external_body]
fn ds_factor_message(ds_factor: u64) -> String {
    format!("downsampling factor {} must be in range 1-200.", ds_factor)
}

/// Computes a FracMinHash sketch of canonical k-mers from a DNA sequence.
///
/// Each window of `kmer_size` unambiguous bases is packed two bits per base,
/// the smaller of its forward and reverse-complement values is kept, and its
/// hash is retained when that value is at most `u64::MAX / ds_factor`.
/// Ambiguous bytes (anything but `ACGTUacgtu`) reset the window.
///
/// Fails with `InvalidParameterError` when `kmer_size` is outside `1..=32`
/// or exceeds `seq.len()`, or when `ds_factor` is outside `1..=200`.
pub fn frac_min_hash(kmer_size: usize, ds_factor: u64, seq: &[u8]) -> (r: Result<
    HashSet<u64>,
    BioError,
>)
    ensures
        r is Ok <==> frac_params_valid(kmer_size as nat, ds_factor as nat, seq@.len()),
        r matches Ok(h) ==> h@ == frac_sketch(kmer_size as nat, ds_factor as nat, seq@),
        r matches Err(e) ==> e is InvalidParameterError,
{
    if kmer_size == 0 || kmer_size > MAX_KMER_SIZE {
        return Err(BioError::InvalidParameterError(kmer_size_range_message(kmer_size)));
    }
    if kmer_size > seq.len() {
        return Err(
            BioError::InvalidParameterError(kmer_size_length_message(kmer_size, seq.len())),
        );
    }
    if ds_factor == 0 || ds_factor > MAX_DOWNSAMPLE {
        return Err(BioError::InvalidParameterError(ds_factor_message(ds_factor)));
    }
    let ghost s = seq@;
    let ghost k = kmer_size as nat;
    let ghost d = ds_factor as nat;

    // Bits kept from the forward value before it shifts; also the offset at
    // which the reverse-complement value takes its new base.
    let keep_bits: u64 = ((kmer_size - 1) * 2) as u64;
    proof {
        lemma_u64_pow2_no_overflow(keep_bits as nat);
        lemma_u64_shl_is_mul(1, keep_bits);
    }
    let keep_mask: u64 = (1u64 << keep_bits) - 1;
    let threshold: u64 = u64::MAX / ds_factor;

    let mut kmer_forward: u64 = 0;
    let mut kmer_reverse: u64 = 0;
    let mut canonical_hashes: HashSet<u64> = HashSet::with_capacity(seq.len() - kmer_size + 1);
    let mut valid_kmer_index: usize = 0;
    let mut i: usize = 0;
    proof {
        assert(s.subrange(0, 0) =~= Seq::<u8>::empty());
        assert(pack(s.subrange(0, 0)) == 0);
        assert(pack_rc(s.subrange(0, 0)) == 0);
        lemma2_to64();
    }
    while i < seq.len()
        invariant
            s == seq@,
            k == kmer_size,
            d == ds_factor,
            frac_params_valid(k, d, s.len()),
            keep_bits == 2 * (k - 1),
            keep_mask == ((1u64 << keep_bits) - 1) as u64,
            threshold == u64::MAX / ds_factor,
            i <= s.len(),
            valid_kmer_index <= i,
            valid_kmer_index == run_len(s, i as nat),
            kmer_forward == pack(
                s.subrange(i - held(valid_kmer_index as nat, k), i as int),
            ),
            kmer_reverse == pack_rc(s.subrange(i - held(valid_kmer_index as nat, k), i as int))
                * pow4((k - held(valid_kmer_index as nat, k)) as nat),
            canonical_hashes@ == sketch_upto(s, k, d, i as nat),
        decreases s.len() - i,
    {
        let nt = nt_code(seq[i]) as u64;
        proof {
            if i + 1 >= k {
                lemma_run_len_window(s, (i + 1) as nat, k);
            }
        }
        if nt >= 4 {
            valid_kmer_index = 0;
            kmer_forward = 0;
            kmer_reverse = 0;
            proof {
                assert(s.subrange(i + 1, i + 1) =~= Seq::<u8>::empty());
                assert(pack(s.subrange(i + 1, i + 1)) == 0);
                assert(pack_rc(s.subrange(i + 1, i + 1)) == 0);
                assert(0 * pow4(k) == 0);
                assert(pow4(k) > 0) by {
                    lemma_pow4_step(k);
                }
                assert(!kmer_kept(s, k, d, (i + 1) as nat));
            }
        } else {
            let ghost old_fwd = kmer_forward;
            let ghost old_rev = kmer_reverse;
            proof {
                lemma_window_step(s, k, i as nat, valid_kmer_index as nat, old_fwd as nat, old_rev as nat);
                lemma_shift_in_forward(old_fwd, nt, keep_bits);
                assert(keep_bits as nat == 2 * ((k - 1) as nat));
                let m0 = held(valid_kmer_index as nat, k);
                let w0 = s.subrange(i - m0, i as int);
                lemma_pack_rc_bound(w0);
                lemma_pow4_adds(m0, (k - m0) as nat);
                lemma_pow4_le(0, (k - m0) as nat);
                assert(m0 + (k - m0) as nat == k);
                lemma_pow4_step((k - 1) as nat);
                assert((k - 1) as nat + 1 == k);
                assert(old_rev < pow4(k)) by (nonlinear_arith)
                    requires
                        old_rev == pack_rc(w0) * pow4((k - m0) as nat),
                        pack_rc(w0) < pow4(m0),
                        pow4(k) == pow4(m0) * pow4((k - m0) as nat),
                        pow4((k - m0) as nat) > 0,
                ;
                lemma_shift_in_reverse(old_rev, nt, keep_bits);
            }
            kmer_forward = ((kmer_forward & keep_mask) << 2u64) | nt;
            kmer_reverse = (kmer_reverse >> 2u64) | ((3 - nt) << keep_bits);
            valid_kmer_index += 1;
            proof {
                let m = held(valid_kmer_index as nat, k);
                let w = s.subrange(i + 1 - m, i + 1 as int);
                assert(fwd_code(s[i as int]) == nt);
                assert(comp_code(s[i as int]) == 3 - nt);
                assert(kmer_forward == pack(w));
                assert(kmer_reverse == pack_rc(w) * pow4((k - m) as nat));
            }
            if valid_kmer_index >= kmer_size {
                let canonical_kmer = if kmer_forward < kmer_reverse {
                    kmer_forward
                } else {
                    kmer_reverse
                };
                proof {
                    lemma2_to64();
                    assert(pow4(0) == 1);
                    let w = s.subrange(i + 1 - k, i + 1 as int);
                    assert(held(valid_kmer_index as nat, k) == k);
                    assert(w == window(s, k, (i + 1) as nat));
                    assert(kmer_forward == pack(w));
                    assert(kmer_reverse == pack_rc(w) * pow4(0));
                    assert(kmer_reverse == pack_rc(w));
                    assert(canonical_kmer == canonical(window(s, k, (i + 1) as nat)));
                }
                if canonical_kmer <= threshold {
                    canonical_hashes.insert(mm_hash64(canonical_kmer));
                }
            }
        }
        i += 1;
    }
    Ok(canonical_hashes)
}

/// Whether the window ending before `end` is retained with hash `h`.
pub open spec fn retained_at(s: Seq<u8>, k: nat, d: nat, end: nat, h: u64) -> bool {
    &&& 1 <= end
    &&& kmer_kept(s, k, d, end)
    &&& h == kmer_hash(s, k, end)
}

proof fn lemma_sketch_upto_members(s: Seq<u8>, k: nat, d: nat, n: nat, h: u64)
    ensures
        sketch_upto(s, k, d, n).contains(h) <==> exists|e: nat|
            e <= n && #[trigger] retained_at(s, k, d, e, h),
    decreases n,
{
    if n > 0 {
        lemma_sketch_upto_members(s, k, d, (n - 1) as nat, h);
        if retained_at(s, k, d, n, h) {
            assert(sketch_upto(s, k, d, n).contains(h));
        }
        if exists|e: nat| e <= n && #[trigger] retained_at(s, k, d, e, h) {
            let e = choose|e: nat| e <= n && #[trigger] retained_at(s, k, d, e, h);
            if e < n {
                assert(sketch_upto(s, k, d, (n - 1) as nat).contains(h));
            }
        }
    }
}

proof fn lemma_sketch_upto_finite(s: Seq<u8>, k: nat, d: nat, n: nat)
    ensures
        sketch_upto(s, k, d, n).finite(),
    decreases n,
{
    if n > 0 {
        lemma_sketch_upto_finite(s, k, d, (n - 1) as nat);
    }
}

/// Whether every unambiguous base of `s` is one of the uppercase bases
/// `A`, `C`, `G`, `T`, whose complements are bases again.
pub open spec fn strand_stable(s: Seq<u8>) -> bool {
    forall|i: int|
        0 <= i < s.len() && is_base(#[trigger] s[i]) ==> (s[i] == 65 || s[i] == 67 || s[i] == 71
            || s[i] == 84)
}

proof fn lemma_rc_window(s: Seq<u8>, k: nat, e: nat)
    requires
        k <= e <= s.len(),
    ensures
        window(reverse_complement_spec(s), k, e) =~= reverse_complement_spec(
            window(s, k, (s.len() - e + k) as nat),
        ),
{
}

/// On uppercase bases, the forward value of the reverse complement is the
/// reverse-complement value of the window.
proof fn lemma_pack_of_rc(w: Seq<u8>)
    requires
        forall|j: int|
            0 <= j < w.len() ==> (#[trigger] w[j] == 65 || w[j] == 67 || w[j] == 71 || w[j]
                == 84),
    ensures
        pack(reverse_complement_spec(w)) == pack_rc(w),
    decreases w.len(),
{
    if w.len() > 0 {
        let t = w.drop_last();
        let b = w.last();
        assert(t.push(b) =~= w);
        let x = reverse_complement_spec(w);
        assert(x.drop_first() =~= reverse_complement_spec(t));
        lemma_pack_of_rc(t);
        lemma_pack_drop_first(x);
        lemma_pack_rc_push(t, b);
        assert(x[0] == complement(b));
        assert(fwd_code(complement(b)) == comp_code(b));
    }
}

proof fn lemma_canonical_of_rc(w: Seq<u8>)
    requires
        forall|j: int|
            0 <= j < w.len() ==> (#[trigger] w[j] == 65 || w[j] == 67 || w[j] == 71 || w[j]
                == 84),
    ensures
        canonical(reverse_complement_spec(w)) == canonical(w),
{
    let x = reverse_complement_spec(w);
    lemma_pack_of_rc(w);
    assert(reverse_complement_spec(x) =~= w);
    assert forall|j: int| 0 <= j < x.len() implies (#[trigger] x[j] == 65 || x[j] == 67 || x[j]
        == 71 || x[j] == 84) by {
        assert(x[j] == complement(w[w.len() - 1 - j]));
    }
    lemma_pack_of_rc(x);
}

/// The retained windows of a sequence and of its reverse complement match
/// up: the window ending before `e` in the reverse complement is the reverse
/// complement of the window ending before `s.len() - e + k` in `s`.
proof fn lemma_retained_rc(s: Seq<u8>, k: nat, d: nat, e: nat, h: u64)
    requires
        strand_stable(s),
        1 <= k,
        k <= e <= s.len(),
    ensures
        retained_at(reverse_complement_spec(s), k, d, e, h) <==> retained_at(
            s,
            k,
            d,
            (s.len() - e + k) as nat,
            h,
        ),
{
    let r = reverse_complement_spec(s);
    let e2 = (s.len() - e + k) as nat;
    let w = window(s, k, e2);
    lemma_rc_window(s, k, e);
    let x = window(r, k, e);
    assert(x == reverse_complement_spec(w));
    assert(all_bases(x) <==> all_bases(w)) by {
        if all_bases(w) {
            assert forall|j: int| 0 <= j < x.len() implies is_base(#[trigger] x[j]) by {
                assert(x[j] == complement(w[k - 1 - j]));
                assert(is_base(w[k - 1 - j]));
                assert(w[k - 1 - j] == s[e2 - k + (k - 1 - j)]);
            }
        }
        if all_bases(x) {
            assert forall|j: int| 0 <= j < w.len() implies is_base(#[trigger] w[j]) by {
                assert(x[k - 1 - j] == complement(w[j]));
                assert(is_base(x[k - 1 - j]));
            }
        }
    }
    if all_bases(w) {
        assert forall|j: int| 0 <= j < w.len() implies (#[trigger] w[j] == 65 || w[j] == 67
            || w[j] == 71 || w[j] == 84) by {
            assert(is_base(w[j]));
            assert(w[j] == s[e2 - k + j]);
        }
        lemma_canonical_of_rc(w);
    }
}

/// Strand symmetry: reverse complementing a sequence leaves its FracMinHash
/// sketch unchanged. Reverse complementing turns lowercase bases and `U`
/// into `N`, so the law holds of sequences whose bases are uppercase
/// `A`, `C`, `G`, `T`.
pub proof fn lemma_frac_sketch_strand_symmetric(k: nat, d: nat, s: Seq<u8>)
    requires
        1 <= k,
        1 <= d,
        strand_stable(s),
    ensures
        frac_sketch(k, d, s) == frac_sketch(k, d, reverse_complement_spec(s)),
{
    let r = reverse_complement_spec(s);
    let n = s.len();
    assert forall|h: u64| frac_sketch(k, d, s).contains(h) implies frac_sketch(
        k,
        d,
        r,
    ).contains(h) by {
        lemma_sketch_upto_members(s, k, d, n, h);
        lemma_sketch_upto_members(r, k, d, n, h);
        let e = choose|e: nat| e <= n && #[trigger] retained_at(s, k, d, e, h);
        let e2 = (n - e + k) as nat;
        lemma_retained_rc(s, k, d, e2, h);
        assert((n - e2 + k) as nat == e);
        assert(retained_at(r, k, d, e2, h));
    }
    assert forall|h: u64| frac_sketch(k, d, r).contains(h) implies frac_sketch(
        k,
        d,
        s,
    ).contains(h) by {
        lemma_sketch_upto_members(s, k, d, n, h);
        lemma_sketch_upto_members(r, k, d, n, h);
        let e = choose|e: nat| e <= n && #[trigger] retained_at(r, k, d, e, h);
        lemma_retained_rc(s, k, d, e, h);
        assert(retained_at(s, k, d, (n - e + k) as nat, h));
    }
    assert(frac_sketch(k, d, s) =~= frac_sketch(k, d, r));
}

/// Determinism: the sketch is a function of the parameters and the bytes of
/// the sequence alone, so two calls on equal input give equal sets.
pub proof fn lemma_frac_sketch_deterministic(k: nat, d: nat, s1: Seq<u8>, s2: Seq<u8>)
    requires
        s1 == s2,
    ensures
        frac_sketch(k, d, s1) == frac_sketch(k, d, s2),
{
}

proof fn lemma_sketch_upto_downsample(s: Seq<u8>, k: nat, d1: nat, d2: nat, n: nat)
    requires
        1 <= d1 <= d2,
    ensures
        sketch_upto(s, k, d2, n).subset_of(sketch_upto(s, k, d1, n)),
    decreases n,
{
    if n > 0 {
        lemma_sketch_upto_downsample(s, k, d1, d2, (n - 1) as nat);
        vstd::arithmetic::div_mod::lemma_div_is_ordered_by_denominator(
            u64::MAX as int,
            d1 as int,
            d2 as int,
        );
    }
}

/// Monotone downsampling: raising the downsampling factor keeps a subset of
/// the hashes, so the sketch never grows.
pub proof fn lemma_frac_sketch_downsample_monotone(k: nat, d1: nat, d2: nat, s: Seq<u8>)
    requires
        1 <= d1 <= d2,
    ensures
        frac_sketch(k, d2, s).subset_of(frac_sketch(k, d1, s)),
        frac_sketch(k, d2, s).len() <= frac_sketch(k, d1, s).len(),
{
    lemma_sketch_upto_downsample(s, k, d1, d2, s.len());
    lemma_sketch_upto_finite(s, k, d1, s.len());
    vstd::set_lib::lemma_len_subset(frac_sketch(k, d2, s), frac_sketch(k, d1, s));
}

} // verus!
