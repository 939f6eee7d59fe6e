use greedy_assembler::assembly::assemble_genome;
use greedy_assembler::fasta::{fasta_record, genome_record, record_from, FastaError};

#[test]
fn the_record_of_a_genome() {
    assert_eq!(genome_record("ACGT"), Ok(b">AssembledGenome\nACGT\n".to_vec()));
}

#[test]
fn the_record_of_an_empty_sequence() {
    assert_eq!(genome_record(""), Ok(b">AssembledGenome\n\n".to_vec()));
}

#[test]
fn a_record_under_another_identifier() {
    assert_eq!(fasta_record("read1", "GATTACA"), Ok(b">read1\nGATTACA\n".to_vec()));
    assert_eq!(fasta_record("", "A"), Ok(b">\nA\n".to_vec()));
}

#[test]
fn a_record_is_not_wrapped() {
    let sequence = "ACGT".repeat(100);
    let record = fasta_record("long", &sequence).unwrap();
    assert_eq!(record.len(), 1 + 4 + 1 + 400 + 1);
    assert_eq!(record.iter().filter(|b| **b == b'\n').count(), 2);
}

#[test]
fn a_record_holds_the_bytes_of_its_characters() {
    let record = fasta_record("é", "ö").unwrap();
    assert_eq!(record, ">é\nö\n".as_bytes().to_vec());
}

#[test]
fn the_writer_s_error_becomes_a_write_error() {
    let failed = std::io::Error::new(std::io::ErrorKind::Other, "full");
    assert_eq!(record_from(Err(failed)), Err(FastaError::Write));
    assert_eq!(record_from(Ok(vec![1, 2, 3])), Ok(vec![1, 2, 3]));
}

#[test]
fn a_record_is_always_there() {
    for sequence in ["", "A", "ACGT\nACGT", ">", "é", " "] {
        for id in ["", "id", "two words", "é"] {
            let record = fasta_record(id, sequence);
            assert_eq!(record, Ok(format!(">{}\n{}\n", id, sequence).into_bytes()));
        }
        assert!(genome_record(sequence).is_ok());
    }
}

#[test]
fn the_record_of_an_assembly() {
    let fragments = vec!["ATGCGTACG".to_string(), "CGTACGTAG".to_string()];
    let genome = assemble_genome(fragments, 6);
    assert_eq!(genome_record(&genome), Ok(b">AssembledGenome\nATGCGTACGTAG\n".to_vec()));
}
