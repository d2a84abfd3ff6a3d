use audio_slicer::batch::{summarize, FileOutcome};
use audio_slicer::stats::{duration_us, PerformanceStats};

fn file_stats(audio_us: u64, detected: usize, saved: usize) -> PerformanceStats {
    PerformanceStats {
        total_files: 0,
        processed_files: 1,
        total_audio_duration_us: audio_us,
        total_processing_time_us: 10,
        total_load_time_us: 1,
        total_slice_time_us: 2,
        total_merge_time_us: 3,
        total_save_time_us: 4,
        total_chunks_detected: detected,
        total_chunks_merged: detected,
        total_slices_saved: saved,
        total_saved_duration_us: audio_us / 2,
    }
}

#[test]
fn default_stats_are_zero() {
    let s = PerformanceStats::default();
    assert_eq!(s.total_files, 0);
    assert_eq!(s.processed_files, 0);
    assert_eq!(s.total_audio_duration_us, 0);
    assert_eq!(s.total_slices_saved, 0);
}

#[test]
fn add_sums_every_counter_but_total_files() {
    let mut total = PerformanceStats::default();
    total.total_files = 7;
    total.add(&file_stats(1000, 3, 2));
    total.add(&file_stats(500, 4, 1));
    assert_eq!(total.total_files, 7);
    assert_eq!(total.processed_files, 2);
    assert_eq!(total.total_audio_duration_us, 1500);
    assert_eq!(total.total_processing_time_us, 20);
    assert_eq!(total.total_load_time_us, 2);
    assert_eq!(total.total_slice_time_us, 4);
    assert_eq!(total.total_merge_time_us, 6);
    assert_eq!(total.total_save_time_us, 8);
    assert_eq!(total.total_chunks_detected, 7);
    assert_eq!(total.total_chunks_merged, 7);
    assert_eq!(total.total_slices_saved, 3);
    assert_eq!(total.total_saved_duration_us, 750);
}

#[test]
fn add_saturates() {
    let mut total = file_stats(u64::MAX - 1, usize::MAX, 0);
    total.add(&file_stats(5, 1, 0));
    assert_eq!(total.total_audio_duration_us, u64::MAX);
    assert_eq!(total.total_chunks_detected, usize::MAX);
}

#[test]
fn add_order_does_not_matter() {
    let a = file_stats(100, 1, 1);
    let b = file_stats(250, 2, 0);
    let c = file_stats(u64::MAX - 200, 5, 3);
    let mut abc = PerformanceStats::default();
    abc.add(&a);
    abc.add(&b);
    abc.add(&c);
    let mut cab = PerformanceStats::default();
    cab.add(&c);
    cab.add(&a);
    cab.add(&b);
    assert_eq!(abc, cab);
    let mut bc = b;
    bc.add(&c);
    let mut a_bc = PerformanceStats::default();
    a_bc.add(&a);
    a_bc.add(&bc);
    assert_eq!(abc, a_bc);
}

#[test]
fn durations_in_microseconds() {
    assert_eq!(duration_us(16000, 16000), 1_000_000);
    assert_eq!(duration_us(1, 3), 333_333);
    assert_eq!(duration_us(0, 44100), 0);
    assert_eq!(duration_us(44100 * 90, 44100), 90_000_000);
    assert_eq!(duration_us(usize::MAX, 1), u64::MAX);
}

fn outcome(path: &str, stats: PerformanceStats, error: Option<&str>) -> FileOutcome {
    FileOutcome {
        file_path: path.to_string(),
        stats,
        success: error.is_none(),
        error: error.map(|e| e.to_string()),
    }
}

#[test]
fn batch_with_one_corrupt_file() {
    let results = vec![
        outcome("in/a.wav", file_stats(2_000_000, 3, 2), None),
        outcome("in/b.wav", file_stats(1_000_000, 1, 1), None),
        outcome("in/bad.wav", PerformanceStats::default(), Some("malformed stream")),
        outcome("in/sub/c.flac", file_stats(500_000, 2, 2), None),
    ];
    let summary = summarize(&results);
    assert_eq!(summary.successful_files, 3);
    assert_eq!(summary.stats.total_files, 4);
    assert_eq!(summary.stats.processed_files, 3);
    assert_eq!(summary.stats.total_audio_duration_us, 3_500_000);
    assert_eq!(summary.stats.total_chunks_detected, 6);
    assert_eq!(summary.stats.total_slices_saved, 5);
    assert_eq!(summary.failures.len(), 1);
    assert_eq!(summary.failures[0].0, "in/bad.wav");
    assert_eq!(summary.failures[0].1, "malformed stream");
    assert!(!summary.failures[0].1.is_empty());
}

#[test]
fn failure_without_message_is_reported_as_unknown() {
    let mut failed = outcome("x.mp3", PerformanceStats::default(), Some("e"));
    failed.error = None;
    failed.success = false;
    let summary = summarize(&vec![failed]);
    assert_eq!(summary.successful_files, 0);
    assert_eq!(summary.stats.total_files, 1);
    assert_eq!(summary.failures, vec![("x.mp3".to_string(), "unknown error".to_string())]);
}

#[test]
fn empty_batch_summary() {
    let summary = summarize(&Vec::new());
    assert_eq!(summary.successful_files, 0);
    assert_eq!(summary.stats, PerformanceStats::default());
    assert!(summary.failures.is_empty());
}
