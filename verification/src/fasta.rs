//! The FASTA record of an assembled sequence: a header line with the record's
//! identifier, then the sequence on a line of its own.
//!
//! The record is formatted by the `bio` crate's FASTA writer, into memory,
//! where writing meets no error; sending the bytes anywhere is left to the
//! caller.

use vstd::prelude::*;
use vstd::string::StringSliceAdditionalSpecFns;

verus! {

/// Why a record could not be produced.
#[derive(Clone, Copy, Debug, PartialEq, Eq)]
pub enum FastaError {
    /// The FASTA writer reported an error. A writer into memory reports none,
    /// so [`fasta_record`] and [`genome_record`] never return this.
    Write,
}

/// The bytes of a FASTA record without description: `>`, the identifier, a
/// line feed, the sequence, a line feed.
pub open spec fn record_bytes(id: Seq<u8>, sequence: Seq<u8>) -> Seq<u8> {
    seq![0x3eu8] + id + seq![0x0au8] + sequence + seq![0x0au8]
}

/// `std::io::Error`, the error that the FASTA writer reports. It is carried
/// from the writer to [`record_from`] and never looked into.
#[verifier::external_type_specification]
#[verifier::external_body]
pub struct ExIoError(std::io::Error);

/// `bio::io::fasta::Writer::write`, on a writer over a byte vector, with no
/// description and no line wrap, followed by a flush. Not proved: that the
/// writer reports no error (it only passes on the errors of what it writes
/// to, and a byte vector reports none), and that the vector then holds `>`,
/// the bytes of `id`, a line feed, `sequence` and a line feed, and nothing
/// else.
#[verifier::external_body]
fn write_record(id: &str, sequence: &[u8]) -> (written: Result<Vec<u8>, std::io::Error>)
    ensures
        written is Ok,
        written matches Ok(bytes) ==> bytes@ == record_bytes(id.spec_bytes(), sequence@),
{
    let mut bytes: Vec<u8> = Vec::new();
    let mut writer = bio::io::fasta::Writer::new(&mut bytes);
    let written = writer.write(id, None, sequence);
    let flushed = writer.flush();
    drop(writer);
    match (written, flushed) {
        (Ok(()), Ok(())) => Ok(bytes),
        (Err(e), _) => Err(e),
        (_, Err(e)) => Err(e),
    }
}

/// What becomes of the writer's answer: its bytes, or `FastaError::Write` in
/// place of its error.
pub fn record_from(written: Result<Vec<u8>, std::io::Error>) -> (record: Result<
    Vec<u8>,
    FastaError,
>)
    ensures
        match written {
            Ok(bytes) => record == Ok::<Vec<u8>, FastaError>(bytes),
            Err(_) => record == Err::<Vec<u8>, FastaError>(FastaError::Write),
        },
{
    match written {
        Ok(bytes) => Ok(bytes),
        Err(_) => Err(FastaError::Write),
    }
}

/// The FASTA record of `sequence` under the identifier `id`, as bytes: `>`,
/// the identifier, a line feed, the sequence on one line, a line feed. It is
/// there for every identifier and every sequence.
pub fn fasta_record(id: &str, sequence: &str) -> (record: Result<Vec<u8>, FastaError>)
    ensures
        record matches Ok(bytes) && bytes@ == record_bytes(
            id.spec_bytes(),
            sequence.spec_bytes(),
        ),
{
    record_from(write_record(id, sequence.as_bytes()))
}

/// The FASTA record of an assembled genome: `sequence` under the identifier
/// `AssembledGenome`. It is there for every sequence.
pub fn genome_record(sequence: &str) -> (record: Result<Vec<u8>, FastaError>)
    ensures
        record matches Ok(bytes) && bytes@ == record_bytes(
            "AssembledGenome".spec_bytes(),
            sequence.spec_bytes(),
        ),
{
    fasta_record("AssembledGenome", sequence)
}

} // verus!
