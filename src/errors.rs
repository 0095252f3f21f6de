use vstd::prelude::*;

verus! {

/// Failures of the segment engine.
#[derive(Debug, Clone, PartialEq)]
pub enum Error {
    /// The columnar encoder failed.
    ParquetError(String),
    /// The file system failed while a segment was written out.
    FileError(String),
    /// A write reached a segment whose cache has been moved out.
    SegmentWithoutCache,
    /// A record whose columns or types differ from the index's schema.
    SchemaMismatch,
    /// An index or column without a name.
    EmptyName,
}

} // verus!
