//! Slicer configuration and the conversion of its millisecond settings into
//! sample and hop counts.
use vstd::arithmetic::div_mod::{
    lemma_div_by_self, lemma_div_is_ordered, lemma_fundamental_div_mod, lemma_fundamental_div_mod_converse_div,
    lemma_mod_pos_bound,
};
use vstd::prelude::*;

verus! {

/// Slicer settings, all in milliseconds except the sample rate (Hz).
///
/// The silence threshold itself is a level in decibels and is applied by the
/// caller when it classifies frames; it is not part of this integer geometry.
#[derive(Clone, Copy, Debug)]
pub struct SlicerConfig {
    pub sample_rate: u32,
    pub min_length_ms: u32,
    pub min_interval_ms: u32,
    pub hop_size_ms: u32,
    pub max_silence_ms: u32,
}

/// Why a configuration was refused at construction.
#[derive(Clone, Copy, Debug, PartialEq, Eq, Structural)]
pub enum ConfigError {
    /// `min_length_ms >= min_interval_ms >= hop_size_ms` does not hold.
    LengthOrder,
    /// `max_silence_ms >= hop_size_ms` does not hold.
    SilenceShorterThanHop,
    /// The hop rounds to zero samples at this sample rate.
    EmptyHop,
    /// A derived sample or hop count does not fit in `usize`.
    TooLarge,
}

impl ConfigError {
    /// A human-readable description of the error.
    pub fn message(&self) -> (r: &'static str)
        ensures
            r@.len() > 0,
    {
        proof {
            reveal_strlit("min_length >= min_interval >= hop_size must hold");
            reveal_strlit("max_silence >= hop_size must hold");
            reveal_strlit("hop size is shorter than one sample");
            reveal_strlit("a derived length does not fit in memory");
        }
        match self {
            ConfigError::LengthOrder => "min_length >= min_interval >= hop_size must hold",
            ConfigError::SilenceShorterThanHop => "max_silence >= hop_size must hold",
            ConfigError::EmptyHop => "hop size is shorter than one sample",
            ConfigError::TooLarge => "a derived length does not fit in memory",
        }
    }
}

/// `n / d` rounded to the nearest integer, halves rounded up.
pub open spec fn round_div(n: int, d: int) -> int
    recommends
        d > 0,
{
    (2 * n + d) / (2 * d)
}

/// `n / d` rounded up.
pub open spec fn ceil_div(n: int, d: int) -> int
    recommends
        d > 0,
{
    (n + d - 1) / d
}

/// Whether the configuration meets its ordering invariants.
pub open spec fn ms_order_ok(cfg: SlicerConfig) -> bool {
    cfg.min_length_ms >= cfg.min_interval_ms && cfg.min_interval_ms >= cfg.hop_size_ms
        && cfg.max_silence_ms >= cfg.hop_size_ms
}

/// Samples per analysis hop.
pub open spec fn hop_samples(cfg: SlicerConfig) -> int {
    round_div(cfg.sample_rate * cfg.hop_size_ms, 1000)
}

/// Samples in one minimum interval.
pub open spec fn interval_samples(cfg: SlicerConfig) -> int {
    round_div(cfg.sample_rate * cfg.min_interval_ms, 1000)
}

/// RMS window length: the minimum interval, capped at four hops.
pub open spec fn window_samples(cfg: SlicerConfig) -> int {
    if interval_samples(cfg) < 4 * hop_samples(cfg) {
        interval_samples(cfg)
    } else {
        4 * hop_samples(cfg)
    }
}

/// Minimum segment length, in hops.
pub open spec fn length_hops(cfg: SlicerConfig) -> int {
    round_div(cfg.sample_rate * cfg.min_length_ms, 1000 * hop_samples(cfg))
}

/// Minimum interval, in hops.
pub open spec fn interval_hops(cfg: SlicerConfig) -> int {
    round_div(interval_samples(cfg), hop_samples(cfg))
}

/// Longest silence tolerated inside a segment, in hops.
pub open spec fn silence_hops(cfg: SlicerConfig) -> int {
    round_div(cfg.sample_rate * cfg.max_silence_ms, 1000 * hop_samples(cfg))
}

/// Computes `round_div(n, d)` without overflow.
pub(crate) fn rounded_quotient(n: u64, d: u128) -> (r: u64)
    requires
        0 < d <= 0xffff_ffff_ffff_ffff_ffff,
    ensures
        r as int == round_div(n as int, d as int),
        r <= n,
{
    let q = (2 * (n as u128) + d) / (2 * d);
    proof {
        let x = 2 * n as int + d as int;
        let y = 2 * d as int;
        lemma_fundamental_div_mod(x, y);
        assert(x < y * (n as int + 1)) by (nonlinear_arith)
            requires
                d >= 1,
                n >= 0,
                x == 2 * n + d,
                y == 2 * d,
        ;
        assert(0 <= x % y) by {
            vstd::arithmetic::div_mod::lemma_mod_pos_bound(x, y);
        }
        assert(x / y <= n) by (nonlinear_arith)
            requires
                x == y * (x / y) + x % y,
                x % y >= 0,
                x < y * (n + 1),
                y > 0,
        ;
    }
    q as u64
}

/// `sample_rate * ms` computed exactly.
pub(crate) fn rate_times_ms(sample_rate: u32, ms: u32) -> (r: u64)
    ensures
        r as int == sample_rate * ms,
{
    assert(sample_rate as int * ms as int <= u64::MAX) by (nonlinear_arith)
        requires
            sample_rate <= u32::MAX,
            ms <= u32::MAX,
            sample_rate >= 0,
            ms >= 0,
    ;
    sample_rate as u64 * ms as u64
}

/// `ceil_div` as the floor quotient plus one for a non-zero remainder; every
/// index below it starts inside the buffer.
pub proof fn lemma_ceil_div_parts(n: int, h: int)
    requires
        n >= 0,
        h > 0,
    ensures
        ceil_div(n, h) == n / h + (if n % h == 0 { 0int } else { 1int }),
        n == h * (n / h) + n % h,
        0 <= n % h < h,
        forall|i: int| 0 <= i < ceil_div(n, h) ==> #[trigger] (i * h) < n,
{
    lemma_fundamental_div_mod(n, h);
    lemma_mod_pos_bound(n, h);
    let q = n / h;
    let r = n % h;
    if r == 0 {
        assert(n + h - 1 == q * h + (h - 1)) by (nonlinear_arith)
            requires
                n == h * q + r,
                r == 0,
        ;
        lemma_fundamental_div_mod_converse_div(n + h - 1, h, q, h - 1);
    } else {
        assert(n + h - 1 == (q + 1) * h + (r - 1)) by (nonlinear_arith)
            requires
                n == h * q + r,
        ;
        lemma_fundamental_div_mod_converse_div(n + h - 1, h, q + 1, r - 1);
    }
    assert forall|i: int| 0 <= i < ceil_div(n, h) implies #[trigger] (i * h) < n by {
        assert(i * h < n) by (nonlinear_arith)
            requires
                0 <= i,
                i < q + (if r == 0 { 0int } else { 1int }),
                n == h * q + r,
                0 <= r < h,
                h > 0,
        ;
    }
}

/// `min(k * h, n)`, computed without overflow.
pub(crate) fn scaled_clamped(k: usize, h: usize, n: usize) -> (r: usize)
    requires
        h > 0,
    ensures
        r as int == (if k * h < n { k * h } else { n as int }),
{
    let q = n / h;
    proof {
        lemma_fundamental_div_mod(n as int, h as int);
        lemma_mod_pos_bound(n as int, h as int);
    }
    if k > q {
        assert(k * h >= n) by (nonlinear_arith)
            requires
                k >= q + 1,
                n == h * q + n % h,
                n % h < h,
                h > 0,
        ;
        n
    } else {
        assert(k * h <= n) by (nonlinear_arith)
            requires
                k <= q,
                n == h * q + n % h,
                n % h >= 0,
                h > 0,
                k >= 0,
        ;
        let p = k * h;
        if p < n {
            p
        } else {
            n
        }
    }
}

/// `round_div` does not decrease when its numerator grows.
pub proof fn lemma_round_div_monotone(a: int, b: int, d: int)
    requires
        a <= b,
        d > 0,
    ensures
        round_div(a, d) <= round_div(b, d),
{
    lemma_div_is_ordered(2 * a + d, 2 * b + d, 2 * d);
}

/// A configuration that meets its invariants has a minimum length of at
/// least one hop.
pub proof fn lemma_length_at_least_one_hop(cfg: SlicerConfig)
    requires
        ms_order_ok(cfg),
        hop_samples(cfg) > 0,
    ensures
        length_hops(cfg) >= 1,
{
    let sr = cfg.sample_rate as int;
    let x = sr * cfg.hop_size_ms;
    let y = sr * cfg.min_length_ms;
    assert(x <= y) by (nonlinear_arith)
        requires
            sr >= 0,
            cfg.hop_size_ms <= cfg.min_length_ms,
            x == sr * cfg.hop_size_ms,
            y == sr * cfg.min_length_ms,
    ;
    let h = hop_samples(cfg);
    lemma_fundamental_div_mod(2 * x + 1000, 2000);
    lemma_mod_pos_bound(2 * x + 1000, 2000);
    assert(2000 * h <= 2 * x + 1000);
    assert(2000 * h <= 2 * y + 1000 * h);
    lemma_div_is_ordered(2000 * h, 2 * y + 1000 * h, 2000 * h);
    lemma_div_by_self(2000 * h);
    assert(length_hops(cfg) == (2 * y + 1000 * h) / (2000 * h));
}

/// A configuration that meets its invariants has a minimum interval of at
/// least one hop.
pub proof fn lemma_interval_at_least_one_hop(cfg: SlicerConfig)
    requires
        ms_order_ok(cfg),
        hop_samples(cfg) > 0,
    ensures
        interval_samples(cfg) >= hop_samples(cfg),
        interval_hops(cfg) >= 1,
{
    let sr = cfg.sample_rate as int;
    assert(sr * cfg.hop_size_ms <= sr * cfg.min_interval_ms) by (nonlinear_arith)
        requires
            sr >= 0,
            cfg.hop_size_ms <= cfg.min_interval_ms,
    ;
    lemma_round_div_monotone(sr * cfg.hop_size_ms, sr * cfg.min_interval_ms, 1000);
    let h = hop_samples(cfg);
    lemma_round_div_monotone(h, interval_samples(cfg), h);
    assert(round_div(h, h) == 1) by {
        assert((2 * h + h) / (2 * h) == 1) by (nonlinear_arith)
            requires
                h > 0,
        ;
    }
}

} // verus!
