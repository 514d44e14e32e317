//! Mount-table parsing, classification and deduplication, and the usage
//! figures reported for each surviving mount.

pub mod dedup;
pub mod format;
pub mod mountinfo;
pub mod number;
pub mod options;
pub mod text;
pub mod usage;
