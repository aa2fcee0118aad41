//! Running a script over a file: the shared address and substitution logic,
//! the in-memory cycle engine and the line-by-line streaming engine.
pub mod common;
pub mod in_memory;
pub mod line_diff;
pub mod streaming;
pub mod agreement;

pub use common::{ChangeType, FileChange, FileDiff, LineChange};
pub use in_memory::FileProcessor;
pub use streaming::StreamProcessor;
