//! Verified core of a dialogue-script extraction pipeline.
//!
//! The library parses "Musica" dialogue scripts into a labeled syntax tree,
//! walks the tree to extract message and non-message text segments, persists
//! them into per-file segment stores, and models the multi-stage job pipeline
//! (parse, dispatch, analyze, translate, assemble) that moves file identities
//! between processing stages.

pub mod errors;
pub mod grammar;
pub mod jobs;
pub mod parser;
pub mod scoped;
pub mod storage;
pub mod utils;

pub use errors::Error;
pub use errors::Field;
pub use storage::InsertModel as TextSegment;
pub use storage::InsertModelBuilder as TextSegmentBuilder;
