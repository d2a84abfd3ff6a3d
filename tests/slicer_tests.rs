use audio_slicer::geometry::{ConfigError, SlicerConfig};
use audio_slicer::slicer::Slicer;

fn config(sample_rate: u32, max_silence_ms: u32) -> SlicerConfig {
    SlicerConfig {
        sample_rate,
        min_length_ms: 1000,
        min_interval_ms: 100,
        hop_size_ms: 5,
        max_silence_ms,
    }
}

fn loud_frames(slicer: &Slicer, samples: &[f32], threshold_db: f32) -> Vec<bool> {
    let threshold = 10f32.powf(threshold_db / 20.0);
    slicer
        .frame_windows(samples.len())
        .iter()
        .map(|&(start, end)| {
            let window = &samples[start..end];
            let rms = (window.iter().map(|&x| x * x).sum::<f32>() / window.len() as f32).sqrt();
            !(rms < threshold)
        })
        .collect()
}

fn tone_silence_tone(sample_rate: u32) -> Vec<f32> {
    let sr = sample_rate as usize;
    let mut samples = Vec::new();
    for n in 0..5 * sr {
        let in_gap = n >= 2 * sr && n < 3 * sr;
        if in_gap {
            samples.push(0.0);
        } else {
            let t = n as f32 / sample_rate as f32;
            samples.push(0.5 * (2.0 * std::f32::consts::PI * 440.0 * t).sin());
        }
    }
    samples
}

#[test]
fn default_geometry_at_44100() {
    let slicer = Slicer::new(config(44100, 800)).unwrap();
    assert_eq!(slicer.hop_size(), 221);
    assert_eq!(slicer.win_size(), 884);
    assert_eq!(slicer.min_length(), 200);
    assert_eq!(slicer.min_interval(), 20);
    assert_eq!(slicer.max_silence(), 160);
}

#[test]
fn geometry_at_16000() {
    let slicer = Slicer::new(config(16000, 800)).unwrap();
    assert_eq!(slicer.hop_size(), 80);
    assert_eq!(slicer.win_size(), 320);
    assert_eq!(slicer.min_length(), 200);
    assert_eq!(slicer.min_interval(), 20);
    assert_eq!(slicer.max_silence(), 160);
}

#[test]
fn min_length_below_min_interval_is_refused() {
    let mut cfg = config(16000, 800);
    cfg.min_length_ms = 50;
    assert!(matches!(Slicer::new(cfg), Err(ConfigError::LengthOrder)));
}

#[test]
fn min_interval_below_hop_is_refused() {
    let mut cfg = config(16000, 800);
    cfg.min_interval_ms = 4;
    assert!(matches!(Slicer::new(cfg), Err(ConfigError::LengthOrder)));
}

#[test]
fn max_silence_below_hop_is_refused() {
    let cfg = config(16000, 3);
    assert!(matches!(Slicer::new(cfg), Err(ConfigError::SilenceShorterThanHop)));
}

#[test]
fn hop_shorter_than_a_sample_is_refused() {
    let mut cfg = config(100, 800);
    cfg.hop_size_ms = 1;
    cfg.min_interval_ms = 1;
    assert!(matches!(Slicer::new(cfg), Err(ConfigError::EmptyHop)));
}

#[test]
fn error_messages_are_not_empty() {
    assert!(!ConfigError::LengthOrder.message().is_empty());
    assert!(!ConfigError::SilenceShorterThanHop.message().is_empty());
    assert!(!ConfigError::EmptyHop.message().is_empty());
    assert!(!ConfigError::TooLarge.message().is_empty());
}

#[test]
fn frame_windows_cover_buffer() {
    let slicer = Slicer::new(config(16000, 800)).unwrap();
    let windows = slicer.frame_windows(1000);
    assert_eq!(windows.len(), 13);
    assert_eq!(windows[0], (0, 320));
    assert_eq!(windows[9], (720, 1000));
    assert_eq!(windows[12], (960, 1000));
    assert_eq!(slicer.frame_windows(960).len(), 12);
    assert!(slicer.frame_windows(0).is_empty());
}

#[test]
fn silence_gap_longer_than_max_silence_splits() {
    let slicer = Slicer::new(config(16000, 800)).unwrap();
    let samples = tone_silence_tone(16000);
    let loud = loud_frames(&slicer, &samples, -55.0);
    assert_eq!(loud.len(), 1000);
    let chunks = slicer.slice(&loud);
    assert_eq!(chunks, vec![(0, 420), (420, 1000)]);
}

#[test]
fn silence_gap_within_max_silence_is_kept() {
    let slicer = Slicer::new(config(16000, 1200)).unwrap();
    let samples = tone_silence_tone(16000);
    let loud = loud_frames(&slicer, &samples, -55.0);
    let chunks = slicer.slice(&loud);
    assert_eq!(chunks, vec![(0, 1000)]);
}

#[test]
fn constant_full_scale_is_one_chunk() {
    let slicer = Slicer::new(config(16000, 800)).unwrap();
    let samples = vec![1.0f32; 16000 * 3];
    let loud = loud_frames(&slicer, &samples, -55.0);
    assert!(loud.iter().all(|&l| l));
    assert_eq!(slicer.slice(&loud), vec![(0, 600)]);
}

#[test]
fn all_zero_buffer_yields_no_chunk() {
    let slicer = Slicer::new(config(16000, 800)).unwrap();
    let samples = vec![0.0f32; 16000 * 2];
    let loud = loud_frames(&slicer, &samples, -55.0);
    assert_eq!(loud.len(), 400);
    assert!(loud.iter().all(|&l| !l));
    assert!(slicer.slice(&loud).is_empty());
}

#[test]
fn one_loud_frame_keeps_the_tail() {
    let slicer = Slicer::new(config(16000, 800)).unwrap();
    let mut loud = vec![false; 400];
    loud[399] = true;
    assert_eq!(slicer.slice(&loud), vec![(20, 400)]);
}

#[test]
fn short_quiet_buffer_yields_nothing() {
    let slicer = Slicer::new(config(16000, 800)).unwrap();
    let loud = vec![false; 150];
    assert!(slicer.slice(&loud).is_empty());
    assert!(slicer.slice(&[]).is_empty());
}

#[test]
fn short_segment_after_gap_is_dropped() {
    let slicer = Slicer::new(config(16000, 800)).unwrap();
    // 100 loud, 170 quiet, 50 loud, 170 quiet, 300 loud frames.
    let mut loud = vec![true; 100];
    loud.extend(vec![false; 170]);
    loud.extend(vec![true; 50]);
    loud.extend(vec![false; 170]);
    loud.extend(vec![true; 300]);
    // First gap closes at frame 270: clip_end 120, too short, dropped.
    // Second gap closes at frame 490: clip_end 340, chunk (120, 340).
    // Tail (340, 790).
    assert_eq!(slicer.slice(&loud), vec![(120, 340), (340, 790)]);
}

#[test]
fn frame_at_boundary_of_gap_rule() {
    let slicer = Slicer::new(config(16000, 800)).unwrap();
    // A quiet run of exactly max_silence (160) frames is tolerated.
    let mut loud = vec![true; 250];
    loud.extend(vec![false; 160]);
    loud.extend(vec![true; 250]);
    assert_eq!(slicer.slice(&loud), vec![(0, 660)]);
    // One more quiet frame splits, keeping min_interval frames of context.
    let mut loud = vec![true; 250];
    loud.extend(vec![false; 161]);
    loud.extend(vec![true; 250]);
    assert_eq!(slicer.slice(&loud), vec![(0, 270), (270, 661)]);
}

#[test]
fn slice_chunks_are_ordered_and_long_enough() {
    let slicer = Slicer::new(config(16000, 800)).unwrap();
    let mut loud = Vec::new();
    let mut state: u32 = 12345;
    for _ in 0..5000 {
        state = state.wrapping_mul(1103515245).wrapping_add(12345);
        let run = 50 + (state >> 16) % 400;
        let is_loud = (state >> 8) % 2 == 0;
        for _ in 0..run {
            loud.push(is_loud);
        }
        if loud.len() > 20000 {
            break;
        }
    }
    let chunks = slicer.slice(&loud);
    assert!(!chunks.is_empty());
    for c in &chunks {
        assert!(c.0 + slicer.min_length() <= c.1);
    }
    for w in chunks.windows(2) {
        assert!(w[0].1 <= w[1].0);
        assert!(w[0].0 < w[1].0);
    }
}

#[test]
fn sample_ranges_scale_and_clamp() {
    let slicer = Slicer::new(config(16000, 800)).unwrap();
    assert_eq!(slicer.sample_range((420, 1000), 80000), (33600, 80000));
    assert_eq!(slicer.sample_range((990, 1010), 79990), (79200, 79990));
    assert_eq!(slicer.sample_range((1000, 1010), 79990), (79990, 79990));
    assert_eq!(slicer.sample_range((0, 0), 100), (0, 0));
}
