//! Homopolymer runs: detection and compression.

use vstd::prelude::*;
use crate::errors::BioError;

verus! {

/// Whether `b` is an uppercase ASCII letter.
pub open spec fn is_upper(b: u8) -> bool {
    65 <= b <= 90
}

/// End (exclusive) of the run of bytes equal to `s[i]` that covers `i..j`.
pub open spec fn run_end_from(s: Seq<u8>, i: nat, j: nat) -> nat
    decreases s.len() - j,
{
    if j < s.len() && s[j as int] == s[i as int] {
        run_end_from(s, i, j + 1)
    } else {
        j
    }
}

/// End (exclusive) of the maximal run of equal bytes that starts at `i`.
pub open spec fn run_end(s: Seq<u8>, i: nat) -> nat {
    run_end_from(s, i, i + 1)
}

/// Whether a run starts at `p`: the first byte, or one that differs from its
/// predecessor.
pub open spec fn is_run_start(s: Seq<u8>, p: nat) -> bool {
    p == 0 || s[p as int] != s[p - 1]
}

/// Whether the run `[i, j)` is reported: at least `min_len` long, and in
/// uppercase unless soft-masked runs are included.
pub open spec fn qualifies(s: Seq<u8>, i: nat, j: nat, min_len: nat, include_softmask: bool) -> bool {
    j - i >= min_len && (include_softmask || is_upper(s[i as int]))
}

/// Reported runs that start at or after `p`, in order, as
/// `(start, end, byte, length)`.
pub open spec fn homopolymers_from(s: Seq<u8>, p: nat, min_len: nat, include_softmask: bool) -> Seq<
    (usize, usize, u8, usize),
>
    decreases s.len() - p,
{
    if p >= s.len() {
        Seq::empty()
    } else {
        let rest = homopolymers_from(s, p + 1, min_len, include_softmask);
        let j = run_end(s, p);
        if is_run_start(s, p) && qualifies(s, p, j, min_len, include_softmask) {
            seq![(p as usize, j as usize, s[p as int], (j - p) as usize)] + rest
        } else {
            rest
        }
    }
}

/// All reported runs of `s`.
pub open spec fn homopolymers(s: Seq<u8>, min_len: nat, include_softmask: bool) -> Seq<
    (usize, usize, u8, usize),
> {
    homopolymers_from(s, 0, min_len, include_softmask)
}

proof fn lemma_run_end_from(s: Seq<u8>, i: nat, j: nat)
    requires
        i < j <= s.len(),
        forall|k: int| i < k < j ==> s[k] == s[i as int],
    ensures
        j <= run_end_from(s, i, j) <= s.len(),
        forall|k: int| i < k < run_end_from(s, i, j) ==> s[k] == s[i as int],
        run_end_from(s, i, j) < s.len() ==> s[run_end_from(s, i, j) as int] != s[i as int],
    decreases s.len() - j,
{
    if j < s.len() && s[j as int] == s[i as int] {
        lemma_run_end_from(s, i, j + 1);
    }
}

/// Positions inside a run are not run starts, so the reported runs from just
/// after a run start are those from the end of its run.
proof fn lemma_skip_run(s: Seq<u8>, i: nat, p: nat, min_len: nat, soft: bool)
    requires
        i < p <= run_end(s, i),
        run_end(s, i) <= s.len(),
        forall|k: int| i < k < run_end(s, i) ==> s[k] == s[i as int],
    ensures
        homopolymers_from(s, p, min_len, soft) == homopolymers_from(s, run_end(s, i), min_len, soft),
    decreases run_end(s, i) - p,
{
    if p < run_end(s, i) {
        lemma_skip_run(s, i, p + 1, min_len, soft);
        assert(!is_run_start(s, p));
    }
}

/// No run starting within the last `min_len - 1` bytes is long enough.
proof fn lemma_tail_too_short(s: Seq<u8>, p: nat, min_len: nat, soft: bool)
    requires
        p + min_len > s.len(),
    ensures
        homopolymers_from(s, p, min_len, soft) == Seq::<(usize, usize, u8, usize)>::empty(),
    decreases s.len() - p,
{
    if p < s.len() {
        lemma_tail_too_short(s, p + 1, min_len, soft);
        lemma_run_end_from(s, p, p + 1);
    }
}

/// Checks whether the run at `[i, j)` qualifies as a homopolymer.
pub fn valid_homopolymer(i: usize, j: usize, nt: &u8, min_hp_len: usize, include_softmask: bool) -> (r: bool)
    requires
        i <= j,
    ensures
        r == (j - i >= min_hp_len && (include_softmask || is_upper(*nt))),
{
    let long_enough = j - i >= min_hp_len;
    if !long_enough {
        return false;
    }
    match include_softmask {
        true => true,
        false => 65 <= *nt && *nt <= 90,
    }
}

/// Finds all homopolymer runs in a DNA sequence.
///
/// Returns `(start, end, nucleotide, length)` for every maximal run of
/// identical bytes at least `min_len` long, in order, with zero-based
/// half-open coordinates `[start, end)`. When `include_softmask` is `false`,
/// runs of lowercase (or other non-uppercase) bytes are skipped. Never fails.
pub fn find_homopolymers(seq: &[u8], min_len: usize, include_softmask: bool) -> (r: Result<
    Vec<(usize, usize, u8, usize)>,
    BioError,
>)
    requires
        min_len >= 1,
    ensures
        r matches Ok(hps) && hps@ == homopolymers(seq@, min_len as nat, include_softmask),
{
    let ghost s = seq@;
    let mut hps: Vec<(usize, usize, u8, usize)> = Vec::new();
    let seq_len = seq.len();
    if seq_len < min_len {
        proof {
            lemma_tail_too_short(s, 0, min_len as nat, include_softmask);
        }
        return Ok(hps);
    }
    let mut i: usize = 0;
    while i <= seq_len - min_len
        invariant
            s == seq@,
            seq_len == s.len(),
            1 <= min_len <= seq_len,
            i <= seq_len,
            i < seq_len ==> is_run_start(s, i as nat),
            hps@ + homopolymers_from(s, i as nat, min_len as nat, include_softmask) == homopolymers(
                s,
                min_len as nat,
                include_softmask,
            ),
        decreases seq_len - i,
    {
        let mut j: usize = i + 1;
        while j < seq_len && seq[j] == seq[i]
            invariant
                s == seq@,
                seq_len == s.len(),
                i < seq_len,
                i < j <= seq_len,
                forall|k: int| i < k < j ==> s[k] == s[i as int],
                run_end_from(s, i as nat, j as nat) == run_end(s, i as nat),
            decreases seq_len - j,
        {
            j += 1;
        }
        proof {
            lemma_run_end_from(s, i as nat, (i + 1) as nat);
            assert(j == run_end(s, i as nat));
            lemma_skip_run(s, i as nat, (i + 1) as nat, min_len as nat, include_softmask);
        }
        let ghost before = hps@;
        if valid_homopolymer(i, j, &seq[i], min_len, include_softmask) {
            hps.push((i, j, seq[i], j - i));
        }
        proof {
            let rest = homopolymers_from(s, j as nat, min_len as nat, include_softmask);
            let entry = (i as usize, j as usize, s[i as int], (j - i) as usize);
            if qualifies(s, i as nat, j as nat, min_len as nat, include_softmask) {
                assert(hps@ == before.push(entry));
                assert(before + (seq![entry] + rest) =~= before.push(entry) + rest);
            }
            if j < seq_len {
                assert(s[j as int] != s[i as int]);
                assert(s[j - 1] == s[i as int]);
            }
        }
        i = j;
    }
    proof {
        lemma_tail_too_short(s, i as nat, min_len as nat, include_softmask);
        assert(hps@ + Seq::<(usize, usize, u8, usize)>::empty() =~= hps@);
    }
    Ok(hps)
}

/// The bytes of `s` before `n` that start a run: each run collapsed to one
/// byte.
pub open spec fn collapse_prefix(s: Seq<u8>, n: nat) -> Seq<u8>
    decreases n,
{
    if n == 0 {
        Seq::empty()
    } else if is_run_start(s, (n - 1) as nat) {
        collapse_prefix(s, (n - 1) as nat).push(s[n - 1])
    } else {
        collapse_prefix(s, (n - 1) as nat)
    }
}

/// Hard homopolymer compression: every run of equal bytes becomes one byte,
/// e.g. `AAAATTCGCG` becomes `ATCGCG`.
pub fn homopolymer_compression(seq: &[u8]) -> (c_seq: Vec<u8>)
    ensures
        c_seq@ == collapse_prefix(seq@, seq@.len()),
{
    if seq.len() == 0 {
        return Vec::new();
    }
    let mut c_seq: Vec<u8> = Vec::with_capacity(seq.len());
    let mut last = seq[0];
    c_seq.push(last);
    proof {
        assert(collapse_prefix(seq@, 0) =~= Seq::<u8>::empty());
        assert(c_seq@ =~= collapse_prefix(seq@, 1));
    }
    let mut i: usize = 1;
    while i < seq.len()
        invariant
            1 <= i <= seq.len(),
            last == seq@[i - 1],
            c_seq@ == collapse_prefix(seq@, i as nat),
        decreases seq.len() - i,
    {
        let nt = seq[i];
        if nt != last {
            c_seq.push(nt);
            last = nt;
        }
        i += 1;
    }
    c_seq
}

/// 1-based position of byte `p` within its run of equal bytes.
pub open spec fn run_pos(s: Seq<u8>, p: nat) -> nat
    decreases p,
{
    if p == 0 || p >= s.len() {
        1
    } else if s[p as int] == s[p - 1] {
        run_pos(s, (p - 1) as nat) + 1
    } else {
        1
    }
}

/// Whether `p` lies in a run of `_` bytes at the very start of `s`. The soft
/// compressor starts as if a `_` run were already open and empty, so such a
/// run has no first byte that is always kept.
pub open spec fn in_leading_underscores(s: Seq<u8>, p: nat) -> bool {
    s[p as int] == 95 && run_pos(s, p) == p + 1
}

/// Whether soft compression keeps byte `p`: at most `max_len` bytes of each
/// run are kept, and always the first byte of a run (except in a leading run
/// of `_`).
pub open spec fn soft_kept(s: Seq<u8>, p: nat, max_len: nat) -> bool {
    run_pos(s, p) <= max_len || (run_pos(s, p) == 1 && !in_leading_underscores(s, p))
}

/// Bytes of the current run that soft compression has kept after byte `p`.
pub open spec fn soft_count(s: Seq<u8>, p: nat, max_len: nat) -> nat {
    let cap = if in_leading_underscores(s, p) || max_len >= 1 {
        max_len
    } else {
        1
    };
    if run_pos(s, p) < cap {
        run_pos(s, p)
    } else {
        cap
    }
}

/// The bytes before `n` that soft compression keeps.
pub open spec fn soft_prefix(s: Seq<u8>, n: nat, max_len: nat) -> Seq<u8>
    decreases n,
{
    if n == 0 {
        Seq::empty()
    } else if soft_kept(s, (n - 1) as nat, max_len) {
        soft_prefix(s, (n - 1) as nat, max_len).push(s[n - 1])
    } else {
        soft_prefix(s, (n - 1) as nat, max_len)
    }
}

/// Soft homopolymer compression: every run of equal bytes is cut to at most
/// `max_len` bytes (at least one), e.g. `AAAATTCGCG` with `max_len == 2`
/// becomes `AATTCGCG`.
pub fn homopolymer_compression_soft(seq: &[u8], max_len: usize) -> (hp_comp: Vec<u8>)
    ensures
        hp_comp@ == soft_prefix(seq@, seq@.len(), max_len as nat),
{
    let ghost s = seq@;
    let mut hp_comp: Vec<u8> = Vec::new();
    if seq.len() == 0 {
        return hp_comp;
    }
    // `_` with an empty count stands for "no run yet".
    let mut current_nt: u8 = 95;
    let mut current_hp_len: usize = 0;
    let mut i: usize = 0;
    while i < seq.len()
        invariant
            s == seq@,
            i <= s.len(),
            i == 0 ==> current_nt == 95 && current_hp_len == 0,
            i > 0 ==> current_nt == s[i - 1] && current_hp_len == soft_count(
                s,
                (i - 1) as nat,
                max_len as nat,
            ),
            hp_comp@ == soft_prefix(s, i as nat, max_len as nat),
        decreases s.len() - i,
    {
        let nt = seq[i];
        proof {
            if i > 0 {
                assert(s[i as int] == s[i - 1] ==> run_pos(s, i as nat) == run_pos(s, (i - 1) as nat) + 1);
                assert(in_leading_underscores(s, i as nat) && s[i as int] == s[i - 1]
                    ==> in_leading_underscores(s, (i - 1) as nat));
                assert(in_leading_underscores(s, (i - 1) as nat) && s[i as int] == s[i - 1]
                    ==> in_leading_underscores(s, i as nat));
            }
        }
        if nt != current_nt {
            current_nt = nt;
            hp_comp.push(nt);
            current_hp_len = 1;
        } else if current_hp_len < max_len {
            hp_comp.push(nt);
            current_hp_len += 1;
        }
        i += 1;
    }
    hp_comp
}

} // verus!
