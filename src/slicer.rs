//! The slicer: frame geometry and the silence/loud scan that turns a
//! per-frame loudness classification into non-silent segments.
use crate::geometry::{
    ceil_div, hop_samples, interval_hops, lemma_ceil_div_parts, lemma_interval_at_least_one_hop,
    lemma_length_at_least_one_hop,
    length_hops, rate_times_ms, rounded_quotient, scaled_clamped, silence_hops, window_samples,
    ConfigError, SlicerConfig,
};
use vstd::prelude::*;

verus! {

/// The derived geometry of a slicer: sample counts for the hop and the RMS
/// window, hop counts for the segment rules.
pub ghost struct Geometry {
    pub hop_size: nat,
    pub win_size: nat,
    pub min_length: nat,
    pub min_interval: nat,
    pub max_silence: nat,
}

/// A slicer built for one sample rate; immutable once built.
pub struct Slicer {
    hop_size: usize,
    win_size: usize,
    min_length: usize,
    min_interval: usize,
    max_silence: usize,
}

impl View for Slicer {
    type V = Geometry;

    closed spec fn view(&self) -> Geometry {
        Geometry {
            hop_size: self.hop_size as nat,
            win_size: self.win_size as nat,
            min_length: self.min_length as nat,
            min_interval: self.min_interval as nat,
            max_silence: self.max_silence as nat,
        }
    }
}

/// The geometry that a valid configuration yields.
pub open spec fn geometry_of(cfg: SlicerConfig) -> Geometry {
    Geometry {
        hop_size: hop_samples(cfg) as nat,
        win_size: window_samples(cfg) as nat,
        min_length: length_hops(cfg) as nat,
        min_interval: interval_hops(cfg) as nat,
        max_silence: silence_hops(cfg) as nat,
    }
}

/// Whether every count of the geometry fits in `usize`.
pub open spec fn fits_usize(g: Geometry) -> bool {
    g.hop_size <= usize::MAX && g.win_size <= usize::MAX && g.min_length <= usize::MAX
        && g.min_interval <= usize::MAX && g.max_silence <= usize::MAX
}

/// The error, if any, that construction reports for a configuration.
pub open spec fn config_error(cfg: SlicerConfig) -> Option<ConfigError> {
    if cfg.min_length_ms < cfg.min_interval_ms || cfg.min_interval_ms < cfg.hop_size_ms {
        Some(ConfigError::LengthOrder)
    } else if cfg.max_silence_ms < cfg.hop_size_ms {
        Some(ConfigError::SilenceShorterThanHop)
    } else if hop_samples(cfg) == 0 {
        Some(ConfigError::EmptyHop)
    } else if !fits_usize(geometry_of(cfg)) {
        Some(ConfigError::TooLarge)
    } else {
        None
    }
}

impl Geometry {
    /// What every slicer satisfies: a non-empty hop, and a minimum length and
    /// minimum interval of at least one hop each.
    pub open spec fn wf(self) -> bool {
        self.hop_size > 0 && self.min_length > 0 && self.min_interval > 0
    }
}

impl Slicer {
    /// Builds a slicer, converting the millisecond settings once into sample
    /// and hop counts.
    pub fn new(cfg: SlicerConfig) -> (r: Result<Slicer, ConfigError>)
        ensures
            config_error(cfg) is Some <==> r is Err,
            r matches Err(e) ==> config_error(cfg) == Some(e),
            r matches Ok(s) ==> s@ == geometry_of(cfg) && s@.wf(),
    {
        if cfg.min_length_ms < cfg.min_interval_ms || cfg.min_interval_ms < cfg.hop_size_ms {
            return Err(ConfigError::LengthOrder);
        }
        if cfg.max_silence_ms < cfg.hop_size_ms {
            return Err(ConfigError::SilenceShorterThanHop);
        }
        let hop = rounded_quotient(rate_times_ms(cfg.sample_rate, cfg.hop_size_ms), 1000);
        if hop == 0 {
            return Err(ConfigError::EmptyHop);
        }
        proof {
            lemma_interval_at_least_one_hop(cfg);
            lemma_length_at_least_one_hop(cfg);
        }
        let interval = rounded_quotient(rate_times_ms(cfg.sample_rate, cfg.min_interval_ms), 1000);
        let win = if (interval as u128) < 4 * (hop as u128) {
            interval
        } else {
            (4 * (hop as u128)) as u64
        };
        let hop_wide = 1000 * (hop as u128);
        let min_length = rounded_quotient(rate_times_ms(cfg.sample_rate, cfg.min_length_ms), hop_wide);
        let min_interval = rounded_quotient(interval, hop as u128);
        let max_silence = rounded_quotient(rate_times_ms(cfg.sample_rate, cfg.max_silence_ms), hop_wide);
        if hop > usize::MAX as u64 || win > usize::MAX as u64 || min_length > usize::MAX as u64
            || min_interval > usize::MAX as u64 || max_silence > usize::MAX as u64 {
            return Err(ConfigError::TooLarge);
        }
        Ok(Slicer {
            hop_size: hop as usize,
            win_size: win as usize,
            min_length: min_length as usize,
            min_interval: min_interval as usize,
            max_silence: max_silence as usize,
        })
    }
}

/// Where the scan stands: inside a kept segment, or inside a run of quiet
/// frames that began at `start`.
#[derive(Clone, Copy, Debug, PartialEq, Eq, Structural)]
pub enum ScanPhase {
    InSegment,
    InSilenceRun { start: usize },
}

/// The scan's state: its phase, where the current segment began, and the
/// chunks emitted so far.
pub type ScanState = (ScanPhase, usize, Seq<(usize, usize)>);

/// One step of the scan over frame `i`.
pub open spec fn scan_step(g: Geometry, st: ScanState, is_loud: bool, i: nat) -> ScanState {
    let (phase, clip_start, chunks) = st;
    if !is_loud {
        match phase {
            ScanPhase::InSegment => (ScanPhase::InSilenceRun { start: i as usize }, clip_start, chunks),
            ScanPhase::InSilenceRun { .. } => st,
        }
    } else {
        match phase {
            ScanPhase::InSegment => st,
            ScanPhase::InSilenceRun { start } => if i - start > g.max_silence {
                let clip_end = (start + g.min_interval) as usize;
                let kept = if clip_end - clip_start >= g.min_length {
                    chunks.push((clip_start, clip_end))
                } else {
                    chunks
                };
                (ScanPhase::InSegment, clip_end, kept)
            } else {
                (ScanPhase::InSegment, clip_start, chunks)
            },
        }
    }
}

/// The scan's state after the first `n` frames.
pub open spec fn scan(g: Geometry, loud: Seq<bool>, n: nat) -> ScanState
    decreases n,
{
    if n == 0 {
        (ScanPhase::InSegment, 0usize, Seq::empty())
    } else {
        scan_step(g, scan(g, loud, (n - 1) as nat), loud[n - 1], (n - 1) as nat)
    }
}

/// Whether any frame is loud.
pub open spec fn any_loud(loud: Seq<bool>) -> bool {
    exists|i: int| 0 <= i < loud.len() && #[trigger] loud[i]
}

/// The chunks of a frame classification: those the scan emitted, then, when
/// some frame is loud, the tail from the current segment start to the end if
/// it is long enough. A classification with no loud frame yields nothing.
pub open spec fn slice_frames(g: Geometry, loud: Seq<bool>) -> Seq<(usize, usize)> {
    let (_, clip_start, chunks) = scan(g, loud, loud.len());
    if any_loud(loud) && loud.len() - clip_start >= g.min_length {
        chunks.push((clip_start, loud.len() as usize))
    } else {
        chunks
    }
}

/// Number of analysis frames in a buffer of `n` samples.
pub open spec fn frame_count(g: Geometry, n: int) -> int {
    ceil_div(n, g.hop_size as int)
}

/// The RMS window of frame `i`: from `i` hops to one window later, cut at
/// the buffer's end.
pub open spec fn frame_window(g: Geometry, i: int, n: int) -> (usize, usize) {
    let start = i * g.hop_size;
    (start as usize, (if start + g.win_size < n { start + g.win_size } else { n }) as usize)
}

/// The samples that a chunk covers: both ends scaled by the hop and clamped
/// to the buffer.
pub open spec fn chunk_sample_range(g: Geometry, chunk: (usize, usize), n: int) -> (usize, usize) {
    let start = chunk.0 * g.hop_size;
    let end = chunk.1 * g.hop_size;
    (
        (if start < n { start } else { n }) as usize,
        (if end < n { end } else { n }) as usize,
    )
}

impl Slicer {
    /// Samples per hop.
    pub fn hop_size(&self) -> (r: usize)
        ensures
            r == self@.hop_size,
    {
        self.hop_size
    }

    /// Samples per RMS window.
    pub fn win_size(&self) -> (r: usize)
        ensures
            r == self@.win_size,
    {
        self.win_size
    }

    /// Minimum chunk length, in hops.
    pub fn min_length(&self) -> (r: usize)
        ensures
            r == self@.min_length,
    {
        self.min_length
    }

    /// Trailing context kept after a chunk, in hops.
    pub fn min_interval(&self) -> (r: usize)
        ensures
            r == self@.min_interval,
    {
        self.min_interval
    }

    /// Longest quiet run tolerated inside a chunk, in hops.
    pub fn max_silence(&self) -> (r: usize)
        ensures
            r == self@.max_silence,
    {
        self.max_silence
    }

    /// The RMS window of every frame of a buffer of `n_samples` samples.
    pub fn frame_windows(&self, n_samples: usize) -> (r: Vec<(usize, usize)>)
        requires
            self@.wf(),
        ensures
            r@.len() == frame_count(self@, n_samples as int),
            forall|i: int|
                0 <= i < r@.len() ==> #[trigger] r@[i] == frame_window(self@, i, n_samples as int),
    {
        let h = self.hop_size;
        proof {
            lemma_ceil_div_parts(n_samples as int, h as int);
        }
        let count = if n_samples % h == 0 {
            n_samples / h
        } else {
            assert(n_samples / h < n_samples) by (nonlinear_arith)
                requires
                    n_samples == h * (n_samples / h) + n_samples % h,
                    n_samples % h > 0,
                    h > 0,
            ;
            n_samples / h + 1
        };
        let mut windows: Vec<(usize, usize)> = Vec::new();
        let mut i: usize = 0;
        while i < count
            invariant
                self@.wf(),
                h == self@.hop_size,
                count == frame_count(self@, n_samples as int),
                forall|j: int| 0 <= j < frame_count(self@, n_samples as int) ==> #[trigger] (j * h) < n_samples,
                i <= count,
                windows@.len() == i,
                forall|j: int|
                    0 <= j < i ==> #[trigger] windows@[j] == frame_window(self@, j, n_samples as int),
            decreases count - i,
        {
            assert(i * h < n_samples);
            let start = i * h;
            let end = if self.win_size < n_samples - start {
                start + self.win_size
            } else {
                n_samples
            };
            windows.push((start, end));
            i = i + 1;
        }
        windows
    }

    /// The samples that a chunk covers in a buffer of `n_samples` samples.
    pub fn sample_range(&self, chunk: (usize, usize), n_samples: usize) -> (r: (usize, usize))
        requires
            self@.wf(),
            chunk.0 <= chunk.1,
        ensures
            r == chunk_sample_range(self@, chunk, n_samples as int),
            r.0 <= r.1 <= n_samples,
    {
        let start = scaled_clamped(chunk.0, self.hop_size, n_samples);
        let end = scaled_clamped(chunk.1, self.hop_size, n_samples);
        assert(chunk.0 * self.hop_size <= chunk.1 * self.hop_size) by (nonlinear_arith)
            requires
                chunk.0 <= chunk.1,
                self.hop_size > 0,
        ;
        (start, end)
    }

    /// Splits a frame classification (`true` for a loud frame) into
    /// non-silent chunks of hop indices.
    pub fn slice(&self, loud: &[bool]) -> (r: Vec<(usize, usize)>)
        requires
            loud@.len() + self@.min_interval <= usize::MAX,
        ensures
            r@ == slice_frames(self@, loud@),
            (forall|i: int| 0 <= i < loud@.len() ==> !#[trigger] loud@[i]) ==> r@.len() == 0,
    {
        let n = loud.len();
        let mut seen_loud = false;
        let mut phase = ScanPhase::InSegment;
        let mut clip_start: usize = 0;
        let mut chunks: Vec<(usize, usize)> = Vec::new();
        let mut i: usize = 0;
        while i < n
            invariant
                n == loud@.len(),
                n + self.min_interval <= usize::MAX,
                i <= n,
                (phase, clip_start, chunks@) == scan(self@, loud@, i as nat),
                phase matches ScanPhase::InSilenceRun { start } ==> start < i,
                seen_loud == (exists|j: int| 0 <= j < i && #[trigger] loud@[j]),
            decreases n - i,
        {
            seen_loud = seen_loud || loud[i];
            if !loud[i] {
                if phase == ScanPhase::InSegment {
                    phase = ScanPhase::InSilenceRun { start: i };
                }
            } else {
                if let ScanPhase::InSilenceRun { start } = phase {
                    if i - start > self.max_silence {
                        let clip_end = start + self.min_interval;
                        if clip_end >= clip_start && clip_end - clip_start >= self.min_length {
                            chunks.push((clip_start, clip_end));
                        }
                        clip_start = clip_end;
                    }
                    phase = ScanPhase::InSegment;
                }
            }
            i = i + 1;
        }
        if seen_loud && n >= clip_start && n - clip_start >= self.min_length {
            chunks.push((clip_start, n));
        }
        proof {
            if forall|j: int| 0 <= j < loud@.len() ==> !#[trigger] loud@[j] {
                lemma_all_quiet_no_chunk(*self, loud@);
            }
        }
        chunks
    }
}

/// Chunks that are strictly increasing and non-overlapping, each at least
/// `min_len` hops long.
pub open spec fn well_separated(c: Seq<(usize, usize)>, min_len: nat) -> bool {
    &&& forall|i: int| 0 <= i < c.len() ==> #[trigger] c[i].0 + min_len <= c[i].1
    &&& forall|i: int|
        0 <= i < c.len() - 1 ==> #[trigger] c[i].1 <= c[i + 1].0 && c[i].0 < c[i + 1].0
}

/// What holds of the scan's state after every prefix of frames.
proof fn lemma_scan_invariant(g: Geometry, loud: Seq<bool>, n: nat)
    requires
        g.wf(),
        n <= loud.len(),
        loud.len() + g.min_interval <= usize::MAX,
    ensures
        ({
            let (phase, clip_start, chunks) = scan(g, loud, n);
            &&& well_separated(chunks, g.min_length)
            &&& chunks.len() > 0 ==> chunks.last().1 <= clip_start && chunks.last().0 < clip_start
            &&& clip_start < n + g.min_interval
            &&& phase matches ScanPhase::InSilenceRun { start } ==> start < n && clip_start < start
                + g.min_interval
        }),
    decreases n,
{
    if n > 0 {
        lemma_scan_invariant(g, loud, (n - 1) as nat);
        let (phase, clip_start, chunks) = scan(g, loud, (n - 1) as nat);
        let (phase2, clip_start2, chunks2) = scan(g, loud, n);
        if chunks2.len() > chunks.len() {
            assert(chunks2 == chunks.push(chunks2.last()));
            assert forall|i: int| 0 <= i < chunks2.len() - 1 implies #[trigger] chunks2[i].1
                <= chunks2[i + 1].0 && chunks2[i].0 < chunks2[i + 1].0 by {
                if i < chunks.len() - 1 {
                    assert(chunks2[i] == chunks[i] && chunks2[i + 1] == chunks[i + 1]);
                } else {
                    assert(chunks2[i] == chunks.last());
                }
            }
            assert forall|i: int| 0 <= i < chunks2.len() implies #[trigger] chunks2[i].0
                + g.min_length <= chunks2[i].1 by {
                if i < chunks.len() {
                    assert(chunks2[i] == chunks[i]);
                }
            }
        }
    }
}

/// Slicing yields strictly increasing, non-overlapping, non-empty chunks,
/// each at least `min_length` hops long.
pub proof fn lemma_slice_well_separated(slicer: Slicer, loud: Seq<bool>)
    requires
        slicer@.wf(),
        loud.len() + slicer@.min_interval <= usize::MAX,
    ensures
        well_separated(slice_frames(slicer@, loud), slicer@.min_length),
        forall|i: int|
            0 <= i < slice_frames(slicer@, loud).len() ==> #[trigger] slice_frames(
                slicer@,
                loud,
            )[i].0 < slice_frames(slicer@, loud)[i].1,
{
    let g = slicer@;
    lemma_scan_invariant(g, loud, loud.len());
    let (_, clip_start, chunks) = scan(g, loud, loud.len());
    let r = slice_frames(g, loud);
    if r.len() > chunks.len() {
        assert(any_loud(loud));
        assert(r == chunks.push((clip_start, loud.len() as usize)));
        assert forall|i: int| 0 <= i < r.len() - 1 implies #[trigger] r[i].1 <= r[i + 1].0
            && r[i].0 < r[i + 1].0 by {
            if i < chunks.len() - 1 {
                assert(r[i] == chunks[i] && r[i + 1] == chunks[i + 1]);
            } else {
                assert(r[i] == chunks.last());
            }
        }
        assert forall|i: int| 0 <= i < r.len() implies #[trigger] r[i].0 + g.min_length
            <= r[i].1 by {
            if i < chunks.len() {
                assert(r[i] == chunks[i]);
            }
        }
    }
}

/// With every frame loud, the scan never leaves its first segment.
proof fn lemma_scan_all_loud(g: Geometry, loud: Seq<bool>, n: nat)
    requires
        n <= loud.len(),
        forall|i: int| 0 <= i < loud.len() ==> #[trigger] loud[i],
    ensures
        scan(g, loud, n) == (ScanPhase::InSegment, 0usize, Seq::<(usize, usize)>::empty()),
    decreases n,
{
    if n > 0 {
        lemma_scan_all_loud(g, loud, (n - 1) as nat);
    }
}

/// A buffer with no quiet frame that is at least `min_length` hops long
/// yields exactly one chunk, spanning the whole buffer.
pub proof fn lemma_all_loud_one_chunk(slicer: Slicer, loud: Seq<bool>)
    requires
        slicer@.wf(),
        loud.len() >= slicer@.min_length,
        forall|i: int| 0 <= i < loud.len() ==> #[trigger] loud[i],
    ensures
        slice_frames(slicer@, loud) == seq![(0usize, loud.len() as usize)],
{
    lemma_scan_all_loud(slicer@, loud, loud.len());
    assert(loud[0]);
    assert(any_loud(loud));
    assert(Seq::<(usize, usize)>::empty().push((0usize, loud.len() as usize)) =~= seq![
        (0usize, loud.len() as usize),
    ]);
}

/// With every frame quiet, a silence run opens at frame 0 and never closes.
proof fn lemma_scan_all_quiet(g: Geometry, loud: Seq<bool>, n: nat)
    requires
        0 < n <= loud.len(),
        forall|i: int| 0 <= i < loud.len() ==> !#[trigger] loud[i],
    ensures
        scan(g, loud, n) == (
            ScanPhase::InSilenceRun { start: 0 },
            0usize,
            Seq::<(usize, usize)>::empty(),
        ),
    decreases n,
{
    if n > 1 {
        lemma_scan_all_quiet(g, loud, (n - 1) as nat);
    } else {
        assert(scan(g, loud, 0) == (ScanPhase::InSegment, 0usize, Seq::<(usize, usize)>::empty()));
        assert(!loud[0]);
    }
}

/// A buffer with no loud frame, of any length, yields no chunk.
pub proof fn lemma_all_quiet_no_chunk(slicer: Slicer, loud: Seq<bool>)
    requires
        forall|i: int| 0 <= i < loud.len() ==> !#[trigger] loud[i],
    ensures
        slice_frames(slicer@, loud) == Seq::<(usize, usize)>::empty(),
{
    if loud.len() > 0 {
        lemma_scan_all_quiet(slicer@, loud, loud.len());
    }
    assert(!any_loud(loud));
}

} // verus!
