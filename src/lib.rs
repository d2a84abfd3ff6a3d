//! Energy-based silence detection and segmentation of mono audio.
//!
//! The library works in hop-indexed frame space: the caller classifies each
//! analysis frame as loud or quiet (from its RMS level), and the library turns
//! that classification into non-silent segments, merges short segments,
//! converts segments back to sample ranges, and aggregates batch statistics.

pub mod geometry;
pub mod slicer;
pub mod merge;
pub mod stats;
pub mod batch;
pub mod formats;

