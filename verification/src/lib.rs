//! Read path of a columnar on-disk file format.
//!
//! A file stores typed columns in per-batch pages. A fixed trailer (the
//! footer) points at a metadata message; the metadata points at a manifest
//! message holding the serialized schema; a block of little-endian integers
//! (the page table) maps every (column, batch) pair to the byte position and
//! element count of one page. Per-encoding decoders materialize page bytes
//! into typed arrays.

pub mod encodings;
pub mod format;
pub mod io;
pub mod num;
pub mod page_table;
pub mod schema;
pub mod varint;

use vstd::prelude::*;

verus! {

/// Failure taxonomy of the read path.
///
/// Every fallible operation returns one of these variants; no verified
/// function of this crate panics.
#[derive(Debug, Clone, Copy, PartialEq, Eq, Structural)]
pub enum Error {
    /// The file is not recognized: too short for a footer, wrong magic
    /// marker, or a structural invariant of the metadata does not hold.
    Format,
    /// Fewer bytes were available than a declared or requested length.
    TruncatedRead,
    /// A metadata message could not be decoded from its byte span.
    MetadataDecode,
    /// Parent id missing, duplicate id, or wrong child arity on a nested
    /// field.
    SchemaConsistency,
    /// A logical type tag has no defined physical type, or no materialization
    /// is defined for it.
    UnsupportedType,
    /// An encoding and logical type combination has no defined decoder.
    UnsupportedEncoding,
    /// A row, column, or batch index beyond bounds.
    OutOfRange,
}

} // verus!
