//! Discovery and metadata extraction for media files: path rules, glob
//! matching, normalisation of probe output and report rows.

pub mod text;
pub mod probe;
pub mod stats;
pub mod paths;
pub mod report;
