//! A library for locating files whose names likely correspond to a list of
//! reference identifiers, using fuzzy string similarity.
//!
//! Two engines share one interface: a CPU engine that scores identifiers
//! against file-name candidates with a subsequence matcher, and a device
//! engine that encodes identifiers and file names as fixed-length hashed
//! n-gram histograms and compares them tile by tile, subject to device
//! storage limits and bounded pipelining. Similarity scores are handled as
//! parts-per-million integers throughout.

pub mod engine;
pub mod fuzzy;
pub mod matcher;
pub mod progress;
pub mod reference_loader;
pub mod searcher;
pub mod store;
pub mod text;
pub mod tiling;
pub mod vectorizer;
