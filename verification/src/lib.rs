//! Parser for Illumina-style sequence-read identifier lines.
//!
//! A sequencer writes one identifier line per read into a FASTQ file; the
//! line encodes the instrument, the run, and the physical position of the
//! cluster on the flow cell. This crate turns such a line into a typed
//! record, or into one of two classified errors, and proves the parser
//! correct against a mathematical model of the grammar.

pub mod ident;
pub mod laws;
pub mod scan;
pub mod text;

pub use ident::CoordinateIdentifier;
pub use ident::IlluminaError;
pub use ident::Sample;
pub use ident::SequenceIdentifier;
pub use ident::parse_coordinate_identifier;
pub use ident::parse_sequence_identifier;
