//! Error values shared by the extractor, the stores and the job pipeline.

use vstd::prelude::*;

verus! {

/// A field of a segment builder, named when a merge or a finalization
/// involving that field fails.
#[derive(Clone, Copy, Debug, PartialEq, Eq, Structural)]
pub enum Field {
    Line,
    Id,
    Name,
    Tachie,
    Content,
}

/// The failures the library reports.
///
/// - `ParseError`: the grammar rejected the text — an inadmissible
///   character, a malformed message head, or an id token outside the id's
///   numeric range. On trees of the grammar's shape this is the only
///   source; a walk of a hand-built tree also reports it for a numeric atom
///   that holds no number, or for a child that hands back no fragment where
///   one was owed.
/// - `BuildError`: a mandatory field was still unset when a builder was
///   finalized into a segment.
/// - `MergeConflict`: two builder fragments both set the same field.
/// - `TypeMismatch`: a message fragment was merged with a non-message
///   fragment, or a message container received a non-message fragment.
/// - `StoreError`: a segment store operation failed in a backing engine.
/// - `QueueError`: a job queue operation failed in a backing engine.
#[derive(Clone, Copy, Debug, PartialEq, Eq, Structural)]
pub enum Error {
    ParseError,
    BuildError(Field),
    MergeConflict(Field),
    TypeMismatch,
    StoreError,
    QueueError,
}

} // verus!
