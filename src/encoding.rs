//! Two-bit nucleotide encoding and the packed values of k-mer windows.
//!
//! A window of bases is packed with its first base in the most significant
//! position; the reverse complement of a window packs the complement of its
//! last base first. All facts the rolling encoder relies on are proved here.

use vstd::prelude::*;
use vstd::arithmetic::power2::{pow2, lemma_pow2_adds, lemma_pow2_pos, lemma2_to64};

verus! {

/// Two-bit code of a nucleotide byte: `A/a` 0, `C/c` 1, `G/g` 2,
/// `T/t/U/u` 3; every other byte is ambiguous and gets 4.
pub open spec fn base_code(b: u8) -> u8 {
    if b == 65 || b == 97 {
        0
    } else if b == 67 || b == 99 {
        1
    } else if b == 71 || b == 103 {
        2
    } else if b == 84 || b == 116 || b == 85 || b == 117 {
        3
    } else {
        4
    }
}

/// Whether a byte is an unambiguous base.
pub open spec fn is_base(b: u8) -> bool {
    base_code(b) < 4
}

/// Code of a base as a digit of a packed value (only meaningful for bases).
pub open spec fn fwd_code(b: u8) -> nat {
    if is_base(b) {
        base_code(b) as nat
    } else {
        0
    }
}

/// Code of the complementary base (only meaningful for bases).
pub open spec fn comp_code(b: u8) -> nat {
    if is_base(b) {
        (3 - base_code(b)) as nat
    } else {
        0
    }
}

/// Whether every byte of `w` is an unambiguous base.
pub open spec fn all_bases(w: Seq<u8>) -> bool {
    forall|j: int| 0 <= j < w.len() ==> is_base(#[trigger] w[j])
}

pub open spec fn pow4(n: nat) -> nat {
    pow2(2 * n)
}

/// Forward packed value of a window.
pub open spec fn pack(w: Seq<u8>) -> nat
    decreases w.len(),
{
    if w.len() == 0 {
        0
    } else {
        pack(w.drop_last()) * 4 + fwd_code(w.last())
    }
}

/// Packed value of the reverse complement of a window.
pub open spec fn pack_rc(w: Seq<u8>) -> nat
    decreases w.len(),
{
    if w.len() == 0 {
        0
    } else {
        comp_code(w[0]) + 4 * pack_rc(w.drop_first())
    }
}

/// Canonical value of a window: the smaller of its two strand encodings.
pub open spec fn canonical(w: Seq<u8>) -> nat {
    if pack(w) < pack_rc(w) {
        pack(w)
    } else {
        pack_rc(w)
    }
}

/// Length of the run of unambiguous bases that ends just before `n`.
pub open spec fn run_len(s: Seq<u8>, n: nat) -> nat
    decreases n,
{
    if n == 0 || n > s.len() {
        0
    } else if !is_base(s[n - 1]) {
        0
    } else {
        run_len(s, (n - 1) as nat) + 1
    }
}

pub proof fn lemma_pow4_step(n: nat)
    ensures
        pow4(n + 1) == 4 * pow4(n),
        pow4(n) > 0,
{
    lemma_pow2_adds(2 * n, 2);
    lemma2_to64();
    lemma_pow2_pos(2 * n);
    assert(2 * (n + 1) == 2 * n + 2);
}

pub proof fn lemma_pow4_adds(a: nat, b: nat)
    ensures
        pow4(a + b) == pow4(a) * pow4(b),
{
    lemma_pow2_adds(2 * a, 2 * b);
    assert(2 * (a + b) == 2 * a + 2 * b);
}

pub proof fn lemma_pow4_le(a: nat, b: nat)
    requires
        a <= b,
    ensures
        0 < pow4(a) <= pow4(b),
{
    lemma_pow4_adds(a, (b - a) as nat);
    lemma_pow2_pos(2 * a);
    lemma_pow2_pos(2 * ((b - a) as nat));
    assert(pow4(a) <= pow4(a) * pow4((b - a) as nat)) by (nonlinear_arith)
        requires
            pow4((b - a) as nat) > 0,
    ;
    assert(a + (b - a) as nat == b);
}

pub proof fn lemma_pack_bound(w: Seq<u8>)
    ensures
        pack(w) < pow4(w.len()),
    decreases w.len(),
{
    if w.len() == 0 {
        lemma2_to64();
    } else {
        lemma_pack_bound(w.drop_last());
        lemma_pow4_step((w.len() - 1) as nat);
    }
}

pub proof fn lemma_pack_rc_bound(w: Seq<u8>)
    ensures
        pack_rc(w) < pow4(w.len()),
    decreases w.len(),
{
    if w.len() == 0 {
        lemma2_to64();
    } else {
        lemma_pack_rc_bound(w.drop_first());
        lemma_pow4_step((w.len() - 1) as nat);
    }
}

pub proof fn lemma_pack_push(w: Seq<u8>, b: u8)
    ensures
        pack(w.push(b)) == pack(w) * 4 + fwd_code(b),
{
    assert(w.push(b).drop_last() =~= w);
}

/// Dropping the first base of a window removes its most significant digit.
pub proof fn lemma_pack_drop_first(w: Seq<u8>)
    requires
        w.len() >= 1,
    ensures
        pack(w) == fwd_code(w[0]) * pow4((w.len() - 1) as nat) + pack(w.drop_first()),
    decreases w.len(),
{
    if w.len() == 1 {
        assert(w.drop_first() =~= Seq::<u8>::empty());
        assert(w.drop_last() =~= Seq::<u8>::empty());
        assert(pack(w.drop_last()) == 0);
        assert(pack(w.drop_first()) == 0);
        lemma2_to64();
        assert(pow4(0) == 1);
    } else {
        let t = w.drop_last();
        lemma_pack_drop_first(t);
        assert(t[0] == w[0]);
        assert(t.drop_first() =~= w.drop_first().drop_last());
        assert(w.drop_first().last() == w.last());
        assert(pack(w.drop_first()) == pack(t.drop_first()) * 4 + fwd_code(w.last()));
        let n2 = (w.len() - 2) as nat;
        lemma_pow4_step(n2);
        assert((w.len() - 1) as nat == n2 + 1);
        let c0 = fwd_code(w[0]);
        assert(c0 * pow4(n2) * 4 == c0 * (4 * pow4(n2))) by (nonlinear_arith);
    }
}

/// Appending a base adds its complement as the new most significant digit of
/// the reverse-complement value.
pub proof fn lemma_pack_rc_push(w: Seq<u8>, b: u8)
    ensures
        pack_rc(w.push(b)) == pack_rc(w) + comp_code(b) * pow4(w.len()),
    decreases w.len(),
{
    if w.len() == 0 {
        assert(w.push(b).drop_first() =~= Seq::<u8>::empty());
        assert(pack_rc(w.push(b).drop_first()) == 0);
        assert(w.push(b)[0] == b);
        lemma2_to64();
        assert(pow4(0) == 1);
    } else {
        assert(w.push(b).drop_first() =~= w.drop_first().push(b));
        assert(w.push(b)[0] == w[0]);
        lemma_pack_rc_push(w.drop_first(), b);
        let n1 = (w.len() - 1) as nat;
        lemma_pow4_step(n1);
        assert(4 * (comp_code(b) * pow4(n1)) == comp_code(b) * (4 * pow4(n1))) by (nonlinear_arith);
    }
}

/// A run of at least `k` bases ends at `n` exactly when the `k` bytes
/// before `n` are all bases.
pub proof fn lemma_run_len_window(s: Seq<u8>, n: nat, k: nat)
    requires
        k <= n <= s.len(),
    ensures
        run_len(s, n) >= k <==> all_bases(s.subrange(n - k, n as int)),
    decreases k,
{
    if k == 0 {
    } else {
        lemma_run_len_window(s, (n - 1) as nat, (k - 1) as nat);
        let w = s.subrange(n - k, n as int);
        let w1 = s.subrange(n - k, n - 1);
        assert(w1 =~= w.drop_last());
        if all_bases(w) {
            assert(is_base(w[k - 1]));
            assert(all_bases(w1)) by {
                assert forall|j: int| 0 <= j < w1.len() implies is_base(#[trigger] w1[j]) by {
                    assert(w1[j] == w[j]);
                }
            }
        }
        if run_len(s, n) >= k {
            assert(all_bases(w)) by {
                assert forall|j: int| 0 <= j < w.len() implies is_base(#[trigger] w[j]) by {
                    if j < k - 1 {
                        assert(w[j] == w1[j]);
                    }
                }
            }
        }
    }
}

} // verus!
