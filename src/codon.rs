//! Codon tables, reading frames and translation of nucleotides to amino acids.

use vstd::prelude::*;

verus! {

/// Reading frame: the offset of the first codon.
pub enum Frame {
    First,
    Second,
    Third,
}

impl Frame {
    pub open spec fn offset(&self) -> nat {
        match self {
            Frame::First => 0,
            Frame::Second => 1,
            Frame::Third => 2,
        }
    }

    /// Zero-based start of the first codon of this frame.
    pub fn start_pos(&self) -> (r: usize)
        ensures
            r == self.offset(),
    {
        match self {
            Frame::First => 0,
            Frame::Second => 1,
            Frame::Third => 2,
        }
    }
}

/// Types of codon tables.
pub enum CodonTable {
    Standard,
}

/// The NCBI standard genetic code, indexed by the 6-bit codon code
/// (see `codon_base_code`): `FFLLSSSSYY**CC*WLLLLPPPPHHQQRRRRIIIMTTTTNNKKSSRRVVVVAAAADDEEGGGG`.
pub open spec fn standard_code() -> Seq<u8> {
    seq![
        70u8, 70u8, 76u8, 76u8, 83u8, 83u8, 83u8, 83u8, 89u8, 89u8, 42u8, 42u8, 67u8, 67u8,
        42u8, 87u8, 76u8, 76u8, 76u8, 76u8, 80u8, 80u8, 80u8, 80u8, 72u8, 72u8, 81u8, 81u8,
        82u8, 82u8, 82u8, 82u8, 73u8, 73u8, 73u8, 77u8, 84u8, 84u8, 84u8, 84u8, 78u8, 78u8,
        75u8, 75u8, 83u8, 83u8, 82u8, 82u8, 86u8, 86u8, 86u8, 86u8, 65u8, 65u8, 65u8, 65u8,
        68u8, 68u8, 69u8, 69u8, 71u8, 71u8, 71u8, 71u8,
    ]
}

/// Stop codons translate to `*`.
pub const STOP: u8 = 42;

impl CodonTable {
    pub open spec fn code(&self) -> Seq<u8> {
        match self {
            CodonTable::Standard => standard_code(),
        }
    }

    /// Maps the codon table type to its 64 amino acids.
    pub fn table(&self) -> (r: [u8; 64])
        ensures
            r@ == self.code(),
    {
        match self {
            CodonTable::Standard => {
                let t: [u8; 64] = [
        70, 70, 76, 76, 83, 83, 83, 83, 89, 89, 42, 42, 67, 67, 42, 87, 76, 76, 76, 76, 80, 80,
        80, 80, 72, 72, 81, 81, 82, 82, 82, 82, 73, 73, 73, 77, 84, 84, 84, 84, 78, 78, 75, 75,
        83, 83, 82, 82, 86, 86, 86, 86, 65, 65, 65, 65, 68, 68, 69, 69, 71, 71, 71, 71,
                ];
                assert(t@ =~= standard_code());
                t
            },
        }
    }
}

/// Two-bit code of a base within a codon, in NCBI table order:
/// `T/t/U` 0, `C/c` 1, `A/a` 2, `G/g` 3, and 0 for any other byte.
pub open spec fn codon_base_code(b: u8) -> nat {
    if b == 67 || b == 99 {
        1
    } else if b == 65 || b == 97 {
        2
    } else if b == 71 || b == 103 {
        3
    } else {
        0
    }
}

/// Amino acid of the `c`-th codon of `s` read from offset `f`.
pub open spec fn codon_amino_acid(code: Seq<u8>, s: Seq<u8>, f: nat, c: nat) -> u8 {
    let p = (f + 3 * c) as int;
    let index = (16 * codon_base_code(s[p]) + 4 * codon_base_code(s[p + 1]) + codon_base_code(
        s[p + 2],
    )) as int;
    code[index]
}

/// Amino acids of codons `c..n`, stopping after the first stop codon.
pub open spec fn translation_from(code: Seq<u8>, s: Seq<u8>, f: nat, c: nat, n: nat) -> Seq<u8>
    decreases n - c,
{
    if c >= n {
        Seq::empty()
    } else {
        let aa = codon_amino_acid(code, s, f, c);
        if aa == STOP {
            seq![aa]
        } else {
            seq![aa] + translation_from(code, s, f, c + 1, n)
        }
    }
}

/// Translation of `s` in frame `f`: the complete codons from offset `f`, up to
/// and including the first stop codon; nothing for sequences under 3 bases.
pub open spec fn translation(code: Seq<u8>, s: Seq<u8>, f: nat) -> Seq<u8> {
    if s.len() < 3 {
        Seq::empty()
    } else {
        translation_from(code, s, f, 0, ((s.len() - f) / 3) as nat)
    }
}

fn codon_code(b: u8) -> (r: usize)
    ensures
        r == codon_base_code(b),
{
    match b {
        // C c
        67 | 99 => 1,
        // A a
        65 | 97 => 2,
        // G g
        71 | 103 => 3,
        _ => 0,
    }
}

proof fn lemma_translation_step(code: Seq<u8>, s: Seq<u8>, f: nat, c: nat, n: nat, done: Seq<u8>)
    requires
        c < n,
        codon_amino_acid(code, s, f, c) != STOP,
    ensures
        done + translation_from(code, s, f, c, n) == done.push(codon_amino_acid(code, s, f, c))
            + translation_from(code, s, f, c + 1, n),
{
    let aa = codon_amino_acid(code, s, f, c);
    assert(done + (seq![aa] + translation_from(code, s, f, c + 1, n)) =~= done.push(aa)
        + translation_from(code, s, f, c + 1, n));
}

/// Translates the codons of `seq` read in `frame` into amino acids, stopping
/// after the first stop codon (`*`).
pub fn translate(codon_table_type: CodonTable, frame: &Frame, seq: &[u8]) -> (translated: Vec<u8>)
    ensures
        translated@ == translation(codon_table_type.code(), seq@, frame.offset()),
{
    let start_pos = frame.start_pos();
    if seq.len() < 3 {
        return Vec::new();
    }
    let codon_table = codon_table_type.table();
    let ghost code = codon_table_type.code();
    let ghost s = seq@;
    let seq_len = seq.len();
    let num_codons = (seq_len - start_pos) / 3;
    let mut translated: Vec<u8> = Vec::with_capacity(seq.len() / 3);
    let mut c: usize = 0;
    proof {
        assert(translated@ + translation_from(code, s, start_pos as nat, 0, num_codons as nat)
            =~= translation(code, s, start_pos as nat));
    }
    while c < num_codons
        invariant
            s == seq@,
            codon_table@ == code,
            code == codon_table_type.code(),
            start_pos == frame.offset(),
            start_pos <= 2,
            3 <= s.len(),
            seq_len == s.len(),
            num_codons == (s.len() - start_pos) / 3,
            c <= num_codons,
            translated@ + translation_from(code, s, start_pos as nat, c as nat, num_codons as nat)
                == translation(code, s, start_pos as nat),
        decreases num_codons - c,
    {
        proof {
            assert(start_pos + 3 * c + 3 <= s.len()) by (nonlinear_arith)
                requires
                    c < num_codons,
                    num_codons == (s.len() - start_pos) / 3,
                    start_pos <= 2,
                    3 <= s.len(),
            ;
        }
        let p = start_pos + 3 * c;
        let b1 = codon_code(seq[p]);
        let b2 = codon_code(seq[p + 1]);
        let b3 = codon_code(seq[p + 2]);
        let index = 16 * b1 + 4 * b2 + b3;
        let aa = codon_table[index];
        proof {
            assert(aa == codon_amino_acid(code, s, start_pos as nat, c as nat));
        }
        if aa == STOP {
            let ghost before = translated@;
            translated.push(aa);
            proof {
                assert(translation_from(code, s, start_pos as nat, c as nat, num_codons as nat)
                    == seq![aa]);
                assert(before + seq![aa] =~= translated@);
            }
            return translated;
        }
        proof {
            lemma_translation_step(code, s, start_pos as nat, c as nat, num_codons as nat, translated@);
        }
        translated.push(aa);
        c += 1;
    }
    proof {
        assert(translated@ + Seq::<u8>::empty() =~= translated@);
    }
    translated
}

} // verus!
