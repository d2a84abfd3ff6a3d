//! Per-file and aggregate performance counters.
//!
//! Durations are whole microseconds. Counters add with saturation, which
//! keeps the sum associative and independent of the order in which files
//! are folded in.
use vstd::prelude::*;

verus! {

/// Counters for one file, or for a whole batch.
#[derive(Clone, Copy, Debug, PartialEq, Eq, Structural)]
pub struct PerformanceStats {
    pub total_files: usize,
    pub processed_files: usize,
    pub total_audio_duration_us: u64,
    pub total_processing_time_us: u64,
    pub total_load_time_us: u64,
    pub total_slice_time_us: u64,
    pub total_merge_time_us: u64,
    pub total_save_time_us: u64,
    pub total_chunks_detected: usize,
    pub total_chunks_merged: usize,
    pub total_slices_saved: usize,
    pub total_saved_duration_us: u64,
}

/// `x + y`, saturating at `u64::MAX`.
pub open spec fn sat_u64(x: u64, y: u64) -> u64 {
    if x + y > u64::MAX {
        u64::MAX
    } else {
        (x + y) as u64
    }
}

/// `x + y`, saturating at `usize::MAX`.
pub open spec fn sat_usize(x: usize, y: usize) -> usize {
    if x + y > usize::MAX {
        usize::MAX
    } else {
        (x + y) as usize
    }
}

/// The stats with all counters at zero.
pub open spec fn zero_stats() -> PerformanceStats {
    PerformanceStats {
        total_files: 0,
        processed_files: 0,
        total_audio_duration_us: 0,
        total_processing_time_us: 0,
        total_load_time_us: 0,
        total_slice_time_us: 0,
        total_merge_time_us: 0,
        total_save_time_us: 0,
        total_chunks_detected: 0,
        total_chunks_merged: 0,
        total_slices_saved: 0,
        total_saved_duration_us: 0,
    }
}

/// `a` with every counter of `b` added to it, except `total_files`, which
/// stays `a`'s: it counts the files found, not those folded in.
pub open spec fn combined(a: PerformanceStats, b: PerformanceStats) -> PerformanceStats {
    PerformanceStats {
        total_files: a.total_files,
        processed_files: sat_usize(a.processed_files, b.processed_files),
        total_audio_duration_us: sat_u64(a.total_audio_duration_us, b.total_audio_duration_us),
        total_processing_time_us: sat_u64(a.total_processing_time_us, b.total_processing_time_us),
        total_load_time_us: sat_u64(a.total_load_time_us, b.total_load_time_us),
        total_slice_time_us: sat_u64(a.total_slice_time_us, b.total_slice_time_us),
        total_merge_time_us: sat_u64(a.total_merge_time_us, b.total_merge_time_us),
        total_save_time_us: sat_u64(a.total_save_time_us, b.total_save_time_us),
        total_chunks_detected: sat_usize(a.total_chunks_detected, b.total_chunks_detected),
        total_chunks_merged: sat_usize(a.total_chunks_merged, b.total_chunks_merged),
        total_slices_saved: sat_usize(a.total_slices_saved, b.total_slices_saved),
        total_saved_duration_us: sat_u64(a.total_saved_duration_us, b.total_saved_duration_us),
    }
}

impl Default for PerformanceStats {
    fn default() -> (r: PerformanceStats)
        ensures
            r == zero_stats(),
    {
        PerformanceStats {
            total_files: 0,
            processed_files: 0,
            total_audio_duration_us: 0,
            total_processing_time_us: 0,
            total_load_time_us: 0,
            total_slice_time_us: 0,
            total_merge_time_us: 0,
            total_save_time_us: 0,
            total_chunks_detected: 0,
            total_chunks_merged: 0,
            total_slices_saved: 0,
            total_saved_duration_us: 0,
        }
    }
}

impl PerformanceStats {
    /// Adds every counter of `other` into `self` (all but `total_files`).
    pub fn add(&mut self, other: &PerformanceStats)
        ensures
            *final(self) == combined(*old(self), *other),
    {
        self.processed_files = self.processed_files.saturating_add(other.processed_files);
        self.total_audio_duration_us = self.total_audio_duration_us.saturating_add(
            other.total_audio_duration_us,
        );
        self.total_processing_time_us = self.total_processing_time_us.saturating_add(
            other.total_processing_time_us,
        );
        self.total_load_time_us = self.total_load_time_us.saturating_add(other.total_load_time_us);
        self.total_slice_time_us = self.total_slice_time_us.saturating_add(
            other.total_slice_time_us,
        );
        self.total_merge_time_us = self.total_merge_time_us.saturating_add(
            other.total_merge_time_us,
        );
        self.total_save_time_us = self.total_save_time_us.saturating_add(other.total_save_time_us);
        self.total_chunks_detected = self.total_chunks_detected.saturating_add(
            other.total_chunks_detected,
        );
        self.total_chunks_merged = self.total_chunks_merged.saturating_add(
            other.total_chunks_merged,
        );
        self.total_slices_saved = self.total_slices_saved.saturating_add(other.total_slices_saved);
        self.total_saved_duration_us = self.total_saved_duration_us.saturating_add(
            other.total_saved_duration_us,
        );
    }
}

/// Audio duration in microseconds of `n_samples` samples at `sample_rate`,
/// rounded down.
pub open spec fn samples_to_us(n_samples: int, sample_rate: int) -> int {
    n_samples * 1_000_000 / sample_rate
}

/// The duration of `n_samples` samples at `sample_rate` Hz, in whole
/// microseconds, saturating at `u64::MAX`.
pub fn duration_us(n_samples: usize, sample_rate: u32) -> (r: u64)
    requires
        sample_rate > 0,
    ensures
        r == (if samples_to_us(n_samples as int, sample_rate as int) > u64::MAX {
            u64::MAX as int
        } else {
            samples_to_us(n_samples as int, sample_rate as int)
        }),
{
    assert(n_samples as int * 1_000_000 <= u128::MAX) by (nonlinear_arith)
        requires
            n_samples <= usize::MAX,
            n_samples >= 0,
    ;
    let q = (n_samples as u128 * 1_000_000) / (sample_rate as u128);
    if q > u64::MAX as u128 {
        u64::MAX
    } else {
        q as u64
    }
}

/// Saturating sums are associative.
proof fn lemma_sat_associative(x: u64, y: u64, z: u64, a: usize, b: usize, c: usize)
    ensures
        sat_u64(sat_u64(x, y), z) == sat_u64(x, sat_u64(y, z)),
        sat_u64(sat_u64(x, y), z) == sat_u64(sat_u64(x, z), y),
        sat_usize(sat_usize(a, b), c) == sat_usize(a, sat_usize(b, c)),
        sat_usize(sat_usize(a, b), c) == sat_usize(sat_usize(a, c), b),
{
}

/// Folding stats is associative: adding `b` then `c` to `a` is adding their
/// sum to it.
pub proof fn lemma_add_associative(a: PerformanceStats, b: PerformanceStats, c: PerformanceStats)
    ensures
        combined(combined(a, b), c) == combined(a, combined(b, c)),
{
    lemma_sat_associative(a.total_audio_duration_us, b.total_audio_duration_us, c.total_audio_duration_us, a.processed_files, b.processed_files, c.processed_files);
    lemma_sat_associative(a.total_processing_time_us, b.total_processing_time_us, c.total_processing_time_us, a.total_chunks_detected, b.total_chunks_detected, c.total_chunks_detected);
    lemma_sat_associative(a.total_load_time_us, b.total_load_time_us, c.total_load_time_us, a.total_chunks_merged, b.total_chunks_merged, c.total_chunks_merged);
    lemma_sat_associative(a.total_slice_time_us, b.total_slice_time_us, c.total_slice_time_us, a.total_slices_saved, b.total_slices_saved, c.total_slices_saved);
    lemma_sat_associative(a.total_merge_time_us, b.total_merge_time_us, c.total_merge_time_us, 0, 0, 0);
    lemma_sat_associative(a.total_save_time_us, b.total_save_time_us, c.total_save_time_us, 0, 0, 0);
    lemma_sat_associative(a.total_saved_duration_us, b.total_saved_duration_us, c.total_saved_duration_us, 0, 0, 0);
}

/// Folding stats does not depend on order: adding `b` then `c` to an
/// accumulator gives what adding `c` then `b` gives.
pub proof fn lemma_add_order_free(acc: PerformanceStats, b: PerformanceStats, c: PerformanceStats)
    ensures
        combined(combined(acc, b), c) == combined(combined(acc, c), b),
{
    lemma_add_associative(acc, b, c);
}

} // verus!
