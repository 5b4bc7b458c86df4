use bio_utils_rs::{classify_seq_file, BioError, SeqFileType};

#[test]
fn seq_file_type_gzip_extensions() {
    for name in ["valid.fastq.gz", "valid.fq.gz", "valid.fasta.gz", "valid.fa.gz"] {
        assert_eq!(SeqFileType::try_from(name.to_string()).unwrap(), SeqFileType::Gzip);
    }
}

#[test]
fn seq_file_type_plain_extensions() {
    for name in ["valid.fastq", "valid.fq", "valid.fasta", "valid.fa"] {
        assert_eq!(SeqFileType::try_from(name.to_string()).unwrap(), SeqFileType::Plain);
    }
}

#[test]
fn seq_file_type_invalid_extensions() {
    for name in ["invalid.txt", "invalid.csv", "gz", ""] {
        match SeqFileType::try_from(name.to_string()) {
            Err(BioError::InvalidFileExtensionError(p)) => assert_eq!(p, name),
            other => panic!("unexpected {:?}", other),
        }
    }
}

#[test]
fn classify_missing_file() {
    match classify_seq_file("/nonexistent/file.fastq".to_string(), false) {
        Err(BioError::FileDoesNotExistError(p)) => assert_eq!(p, "/nonexistent/file.fastq"),
        other => panic!("unexpected {:?}", other),
    }
    assert_eq!(classify_seq_file("reads.fq.gz".to_string(), true).unwrap(), SeqFileType::Gzip);
}
