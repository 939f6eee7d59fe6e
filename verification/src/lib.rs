//! Greedy overlap–merge assembly of a linear sequence from overlapping fragments.
//!
//! A sequence is a string of characters; every contract speaks of its view, a
//! `Seq<char>`. The modules:
//!
//! * [`text`]: moving between strings and character vectors;
//! * [`overlap`]: the longest suffix–prefix overlap of two sequences;
//! * [`assembly`]: the greedy assembler built on it;
//! * [`reads`]: cutting a sequence into fixed-width reads;
//! * [`fasta`]: the FASTA record of an assembled sequence.

pub mod assembly;
pub mod fasta;
pub mod overlap;
pub mod reads;
pub mod text;
