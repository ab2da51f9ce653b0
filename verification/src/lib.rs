//! Reader for BCF 2.2, the binary serialization of the Variant Call Format
//! used in genomics.
//!
//! A byte stream starts with a magic/version prelude and a textual VCF
//! header; the rest is a sequence of variant records in a self-describing
//! typed binary encoding.  The library parses the header into indexed
//! dictionaries and offers two record access strategies: eager full
//! materialization and lazy byte-slice retention with on-demand decoding.

pub mod codec;
pub mod header;
pub mod reader;
pub mod record;
pub mod types;

pub use reader::BcfRecords;
pub use record::BcfRecord;
pub use record::GenotypeAllele;
pub use record::Record;
pub use record::RawBcfRecord;
pub use types::BcfError;
pub use types::Header;
pub use types::TypedVec;
