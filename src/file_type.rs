//! File type classification for sequence files.

use vstd::prelude::*;
use vstd::string::StringSliceAdditionalSpecFns;
use vstd::utf8::encode_utf8;
use crate::errors::BioError;

verus! {

/// Compression type of a sequence file, inferred from its extension.
///
/// Recognized extensions:
/// - **Gzip**: `.fastq.gz`, `.fq.gz`, `.fasta.gz`, `.fa.gz`
/// - **Plain**: `.fastq`, `.fq`, `.fasta`, `.fa`
#[derive(Debug, PartialEq, Eq, Structural)]
pub enum SeqFileType {
    /// Gzip-compressed file.
    Gzip,
    /// Uncompressed plain-text file.
    Plain,
}

/// Whether `t` is a suffix of `s`.
pub open spec fn has_suffix(s: Seq<u8>, t: Seq<u8>) -> bool {
    t.len() <= s.len() && s.subrange(s.len() - t.len(), s.len() as int) == t
}

/// Whether a path (as UTF-8 bytes) names a gzip-compressed sequence file.
pub open spec fn is_gzip_name(p: Seq<u8>) -> bool {
    ||| has_suffix(p, ".fastq.gz".spec_bytes())
    ||| has_suffix(p, ".fq.gz".spec_bytes())
    ||| has_suffix(p, ".fasta.gz".spec_bytes())
    ||| has_suffix(p, ".fa.gz".spec_bytes())
}

/// Whether a path (as UTF-8 bytes) names a plain sequence file.
pub open spec fn is_plain_name(p: Seq<u8>) -> bool {
    ||| has_suffix(p, ".fastq".spec_bytes())
    ||| has_suffix(p, ".fq".spec_bytes())
    ||| has_suffix(p, ".fasta".spec_bytes())
    ||| has_suffix(p, ".fa".spec_bytes())
}

/// Whether `s` ends with `t`.
pub fn ends_with(s: &[u8], t: &[u8]) -> (r: bool)
    ensures
        r == has_suffix(s@, t@),
{
    if t.len() > s.len() {
        return false;
    }
    let offset = s.len() - t.len();
    let mut i: usize = 0;
    while i < t.len()
        invariant
            offset == s@.len() - t@.len(),
            offset + t@.len() == s@.len(),
            s@.len() == s.len(),
            i <= t@.len(),
            forall|j: int| 0 <= j < i ==> s@[offset + j] == t@[j],
        decreases t.len() - i,
    {
        if s[offset + i] != t[i] {
            assert(s@.subrange(offset as int, s@.len() as int)[i as int] != t@[i as int]);
            return false;
        }
        i += 1;
    }
    assert(s@.subrange(offset as int, s@.len() as int) =~= t@);
    true
}

impl SeqFileType {
    /// Determines the file type from the file path string.
    ///
    /// Fails with `InvalidFileExtensionError` holding the path when it does
    /// not end with a recognized FASTQ or FASTA extension.
    pub fn try_from(value: String) -> (r: Result<SeqFileType, BioError>)
        ensures
            r matches Ok(t) ==> (t == SeqFileType::Gzip <==> is_gzip_name(encode_utf8(value@)))
                && (t == SeqFileType::Plain <==> !is_gzip_name(encode_utf8(value@))),
            r is Ok <==> is_gzip_name(encode_utf8(value@)) || is_plain_name(encode_utf8(value@)),
            r matches Err(e) ==> e matches BioError::InvalidFileExtensionError(p) && p@ == value@,
    {
        let name = value.as_str().as_bytes();
        if ends_with(name, ".fastq.gz".as_bytes()) || ends_with(name, ".fq.gz".as_bytes())
            || ends_with(name, ".fasta.gz".as_bytes()) || ends_with(name, ".fa.gz".as_bytes()) {
            return Ok(SeqFileType::Gzip);
        }
        if ends_with(name, ".fastq".as_bytes()) || ends_with(name, ".fq".as_bytes()) || ends_with(
            name,
            ".fasta".as_bytes(),
        ) || ends_with(name, ".fa".as_bytes()) {
            return Ok(SeqFileType::Plain);
        }
        Err(BioError::InvalidFileExtensionError(value))
    }
}

/// Validates a sequence file path: it must exist (as reported by the caller)
/// and carry a recognized extension.
///
/// Fails with `FileDoesNotExistError` holding the path when `exists` is
/// false, and otherwise as `SeqFileType::try_from`.
pub fn classify_seq_file(path: String, exists: bool) -> (r: Result<SeqFileType, BioError>)
    ensures
        !exists ==> (r matches Err(e) && e matches BioError::FileDoesNotExistError(p) && p@ == path@),
        exists ==> (r is Ok <==> is_gzip_name(encode_utf8(path@)) || is_plain_name(encode_utf8(path@))),
        exists ==> (r matches Ok(t) ==> (t == SeqFileType::Gzip <==> is_gzip_name(encode_utf8(path@)))),
        exists ==> (r matches Err(e) ==> e matches BioError::InvalidFileExtensionError(p) && p@ == path@),
{
    if !exists {
        return Err(BioError::FileDoesNotExistError(path));
    }
    SeqFileType::try_from(path)
}

} // verus!
