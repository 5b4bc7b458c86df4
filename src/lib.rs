//! Strand-canonical k-mer sketches of DNA sequences, a reverse index over
//! them, and small sequence utilities.
//!
//! - [`kmerize`] — canonical k-mer encoding and FracMinHash sketches.
//! - [`sketch`] — interchangeable sketch strategies.
//! - [`index`] — reverse index from sketch values to sequences.
//! - [`seq`], [`metrics`], [`homopolymer`], [`search`] — nucleotide utilities.
//! - [`codon`] — translation of nucleotides to amino acids.
//! - [`file_type`] — classification of sequence file names.

pub mod codon;
pub mod encoding;
pub mod errors;
pub mod file_type;
pub mod hash;
pub mod homopolymer;
pub mod index;
pub mod kmerize;
pub mod metrics;
pub mod search;
pub mod seq;
pub mod sketch;

pub use codon::{translate, CodonTable, Frame};
pub use errors::BioError;
pub use file_type::{classify_seq_file, SeqFileType};
pub use hash::mm_hash64;
pub use homopolymer::{
    find_homopolymers, homopolymer_compression, homopolymer_compression_soft, valid_homopolymer,
};
pub use index::{build_reverse_index, try_build_reverse_index, ReverseIndex};
pub use kmerize::{frac_min_hash, nt_code};
pub use metrics::{gc_count, mean_len, nucleotide_counts};
pub use search::{myers_builder, search_exact, search_fuzzy};
pub use seq::reverse_complement;
pub use sketch::{
    ClosedSyncmerSketch, FracMinHashSketch, MinimizerSketch, OpenSyncmerSketch, Sketcher,
};
