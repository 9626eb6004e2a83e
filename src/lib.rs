//! Static compression of files selected by glob patterns: path filtering,
//! search-root derivation, codec settings, the per-file skip/recompress
//! decision and the statistics that workers accumulate.

pub mod algorithm;
pub mod error;
pub mod job;
pub mod matcher;
pub mod params;
pub mod paths;
pub mod roots;
pub mod stats;
pub mod text;
