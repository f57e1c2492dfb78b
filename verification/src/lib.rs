//! Verified core of a columnar-file concatenator.
//!
//! The library merges the contents of several columnar container files that
//! share one schema into a single output, relocating every column chunk's
//! encoded bytes verbatim and rebuilding the footer metadata (schema, row
//! groups, chunk offsets, row counts).  Schema validation, the output-writer
//! state machine and the merge itself are verified; directory discovery and
//! the actual file I/O live outside the library and hand it plain values.

pub mod merge;
pub mod meta;
pub mod paths;
pub mod schema;
pub mod writer;

pub use merge::cat_file;
pub use paths::collect_paths;
pub use paths::compute_outdir_paths;
