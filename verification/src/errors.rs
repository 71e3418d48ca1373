//! The storage-level error taxonomy: short reads against the byte image,
//! and violations of the on-disk format.

use vstd::prelude::*;

verus! {

/// The two broad categories of storage-level failures.
#[derive(Debug, PartialEq, Eq, Structural, Clone, Copy)]
pub enum ErrorKind {
    /// The byte source ended too early.
    Io,
    /// The bytes violate the file format.
    Format,
}

/// A failure while decoding the database image.
#[derive(Debug, PartialEq, Eq, Structural, Clone, Copy)]
pub enum DbError {
    /// The byte source ended before a read could be satisfied.
    ShortRead,
    /// The reserved-space-per-page byte of the file header is nonzero.
    UnsupportedReservedSpace,
    /// The page size in the file header is not a power of two in `512..=65536`.
    InvalidPageSize,
    /// A page's type tag byte is not one of the four known tags.
    UnknownPageType,
    /// A table walk reached an index page, which this reader does not handle.
    UnsupportedPageType,
    /// A record header declares the reserved serial-type code 10 or 11.
    InvalidSerialType,
    /// The serial-type varints of a record header do not fill its declared
    /// length exactly.
    RecordHeaderMismatch,
    /// A text column does not hold valid UTF-8.
    InvalidUtf8,
    /// A page reference lies outside `1..=page_count`.
    PageOutOfRange,
    /// An overflow chain ended before yielding the declared payload size.
    TruncatedOverflow,
    /// A table walk visited more pages than the file holds: the tree is
    /// cyclic or otherwise malformed.
    TraversalLimit,
    /// Leaf records did not appear in strictly ascending row-id order.
    NonAscendingRowIds,
    /// A catalog record does not carry the five columns of the schema table.
    MalformedSchema,
}

impl DbError {
    /// The category a failure belongs to: `ShortRead` is an I/O-level
    /// failure, everything else breaks the file format.
    pub open spec fn spec_kind(self) -> ErrorKind {
        match self {
            DbError::ShortRead => ErrorKind::Io,
            _ => ErrorKind::Format,
        }
    }

    pub fn kind(&self) -> (k: ErrorKind)
        ensures
            k == self.spec_kind(),
    {
        match self {
            DbError::ShortRead => ErrorKind::Io,
            _ => ErrorKind::Format,
        }
    }
}

} // verus!
